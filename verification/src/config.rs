//! Reader settings: the look, the footer, the language and pictures.

use vstd::prelude::*;
use crate::i18n::{tr, translation, Language, Text};
use crate::images::Setting;

verus! {

#[derive(PartialEq, Eq, Structural, Clone, Copy, Debug)]
pub enum Alignment {
    Left,
    Center,
    Right,
}

#[derive(PartialEq, Eq, Structural, Clone, Copy, Debug)]
pub enum ProgressMode {
    Chapter,
    Overall,
}

#[derive(PartialEq, Eq, Structural, Clone, Copy, Debug)]
pub enum Theme {
    Default,
    Sepia,
    Dracula,
    Hacker,
    Nord,
    SolarizedLight,
    SolarizedDark,
    Gruvbox,
    Monokai,
    Catppuccin,
    Oceanic,
}

/// A theme's place in the order the settings menu cycles through.
pub open spec fn theme_index(t: Theme) -> int {
    match t {
        Theme::Default => 0,
        Theme::Sepia => 1,
        Theme::Dracula => 2,
        Theme::Hacker => 3,
        Theme::Nord => 4,
        Theme::SolarizedLight => 5,
        Theme::SolarizedDark => 6,
        Theme::Gruvbox => 7,
        Theme::Monokai => 8,
        Theme::Catppuccin => 9,
        Theme::Oceanic => 10,
    }
}

/// The theme at a place in the menu order.
pub open spec fn theme_at(i: int) -> Theme {
    if i == 0 {
        Theme::Default
    } else if i == 1 {
        Theme::Sepia
    } else if i == 2 {
        Theme::Dracula
    } else if i == 3 {
        Theme::Hacker
    } else if i == 4 {
        Theme::Nord
    } else if i == 5 {
        Theme::SolarizedLight
    } else if i == 6 {
        Theme::SolarizedDark
    } else if i == 7 {
        Theme::Gruvbox
    } else if i == 8 {
        Theme::Monokai
    } else if i == 9 {
        Theme::Catppuccin
    } else {
        Theme::Oceanic
    }
}

/// The number of themes.
pub open spec fn theme_count() -> int {
    11
}

/// The next theme in the menu, wrapping around.
pub open spec fn theme_after(t: Theme) -> Theme {
    theme_at((theme_index(t) + 1) % theme_count())
}

/// The previous theme in the menu, wrapping around.
pub open spec fn theme_before(t: Theme) -> Theme {
    theme_at((theme_index(t) + theme_count() - 1) % theme_count())
}

pub open spec fn theme_name(t: Theme, ui: Language) -> Seq<char> {
    match t {
        Theme::Default => translation(ui, Text::TerminalTheme),
        Theme::Sepia => "Sepia"@,
        Theme::Dracula => "Dracula"@,
        Theme::Hacker => "Hacker"@,
        Theme::Nord => "Nord"@,
        Theme::SolarizedLight => "Sol Light"@,
        Theme::SolarizedDark => "Sol Dark"@,
        Theme::Gruvbox => "Gruvbox"@,
        Theme::Monokai => "Monokai"@,
        Theme::Catppuccin => "Catppuccin"@,
        Theme::Oceanic => "Oceanic"@,
    }
}

impl Theme {
    pub fn next(self) -> (r: Self)
        ensures
            r == theme_after(self),
    {
        Self::at((self.index() + 1) % 11)
    }

    pub fn prev(self) -> (r: Self)
        ensures
            r == theme_before(self),
    {
        Self::at((self.index() + 11 - 1) % 11)
    }

    fn index(self) -> (i: usize)
        ensures
            i == theme_index(self),
    {
        match self {
            Theme::Default => 0,
            Theme::Sepia => 1,
            Theme::Dracula => 2,
            Theme::Hacker => 3,
            Theme::Nord => 4,
            Theme::SolarizedLight => 5,
            Theme::SolarizedDark => 6,
            Theme::Gruvbox => 7,
            Theme::Monokai => 8,
            Theme::Catppuccin => 9,
            Theme::Oceanic => 10,
        }
    }

    fn at(i: usize) -> (t: Self)
        requires
            i < 11,
        ensures
            t == theme_at(i as int),
    {
        if i == 0 {
            Theme::Default
        } else if i == 1 {
            Theme::Sepia
        } else if i == 2 {
            Theme::Dracula
        } else if i == 3 {
            Theme::Hacker
        } else if i == 4 {
            Theme::Nord
        } else if i == 5 {
            Theme::SolarizedLight
        } else if i == 6 {
            Theme::SolarizedDark
        } else if i == 7 {
            Theme::Gruvbox
        } else if i == 8 {
            Theme::Monokai
        } else if i == 9 {
            Theme::Catppuccin
        } else {
            Theme::Oceanic
        }
    }

    /// The theme's name; the terminal's own colors are named in the
    /// interface language `ui`.
    pub fn name(self, ui: Language) -> (r: &'static str)
        ensures
            r@ == theme_name(self, ui),
    {
        match self {
            Theme::Default => tr(ui, Text::TerminalTheme),
            Theme::Sepia => "Sepia",
            Theme::Dracula => "Dracula",
            Theme::Hacker => "Hacker",
            Theme::Nord => "Nord",
            Theme::SolarizedLight => "Sol Light",
            Theme::SolarizedDark => "Sol Dark",
            Theme::Gruvbox => "Gruvbox",
            Theme::Monokai => "Monokai",
            Theme::Catppuccin => "Catppuccin",
            Theme::Oceanic => "Oceanic",
        }
    }
}

/// Going forward then back, or back then forward, returns to the theme one
/// started from; eleven steps forward come back round.
pub proof fn law_theme_cycle(t: Theme)
    ensures
        theme_before(theme_after(t)) == t,
        theme_after(theme_before(t)) == t,
{
}

pub struct Config {
    pub max_width: usize,
    pub margin_left: usize,
    pub margin_right: usize,
    pub scroll_by_lines: usize,
    pub theme: Theme,
    pub show_footer: bool,
    pub dim_footer: bool,
    pub footer_align: Alignment,
    pub show_chapter_title: bool,
    pub show_chapter_location: bool,
    pub show_progress_bar: bool,
    pub show_progress_percentage: bool,
    pub progress_bar_length: usize,
    pub progress_mode: ProgressMode,
    pub language: Language,
    pub images: Setting,
    /// Ignore the book's stylesheets and use the reader's own plain formatting
    pub plain_styles: bool,
}

/// The settings a new reader starts with.
pub open spec fn default_config(c: Config) -> bool {
    &&& c.max_width == 80
    &&& c.margin_left == 4
    &&& c.margin_right == 4
    &&& c.scroll_by_lines == 2
    &&& c.theme == Theme::Default
    &&& c.show_footer
    &&& c.dim_footer
    &&& c.footer_align == Alignment::Center
    &&& c.show_chapter_title
    &&& c.show_chapter_location
    &&& c.show_progress_bar
    &&& c.show_progress_percentage
    &&& c.progress_bar_length == 10
    &&& c.progress_mode == ProgressMode::Overall
    &&& c.language == Language::Auto
    &&& c.images == Setting::Auto
    &&& !c.plain_styles
}

impl Default for Config {
    fn default() -> (r: Self)
        ensures
            default_config(r),
    {
        Config {
            max_width: 80,
            margin_left: 4,
            margin_right: 4,
            scroll_by_lines: 2,
            theme: Theme::Default,
            show_footer: true,
            dim_footer: true,
            footer_align: Alignment::Center,
            show_chapter_title: true,
            show_chapter_location: true,
            show_progress_bar: true,
            show_progress_percentage: true,
            progress_bar_length: 10,
            progress_mode: ProgressMode::Overall,
            language: Language::Auto,
            images: Setting::Auto,
            plain_styles: false,
        }
    }
}

} // verus!
