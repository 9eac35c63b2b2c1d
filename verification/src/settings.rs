//! The rows of the settings menu: what each shows and how it changes.

use vstd::prelude::*;
use crate::config::{theme_after, theme_before, theme_name, Alignment, Config, ProgressMode};
use crate::i18n::{language_after, language_before, language_name, tr, translation, Language, Text};
use crate::images::{setting_after, setting_before, setting_name};
use crate::text::{decimal, decimal_chars, string_of};

verus! {

#[derive(PartialEq, Eq, Structural, Clone, Copy, Debug)]
pub enum Row {
    MaxWidth,
    MarginLeft,
    MarginRight,
    ScrollLines,
    Theme,
    Language,
    Images,
    PlainStyles,
    ShowFooter,
    DimFooter,
    FooterAlign,
    ChapterTitle,
    ProgressMode,
    ProgressBar,
    BarLength,
    ProgressPercent,
    ChapterLoc,
}

/// How many rows the menu has.
pub const ROW_COUNT: usize = 17;

/// The first MAIN_ROWS rows form the main group, the rest the footer group.
pub const MAIN_ROWS: usize = 8;

/// The row at place `i` of the menu.
pub open spec fn row_order(i: int) -> Row {
    if i == 0 {
        Row::MaxWidth
    } else if i == 1 {
        Row::MarginLeft
    } else if i == 2 {
        Row::MarginRight
    } else if i == 3 {
        Row::ScrollLines
    } else if i == 4 {
        Row::Theme
    } else if i == 5 {
        Row::Language
    } else if i == 6 {
        Row::Images
    } else if i == 7 {
        Row::PlainStyles
    } else if i == 8 {
        Row::ShowFooter
    } else if i == 9 {
        Row::DimFooter
    } else if i == 10 {
        Row::FooterAlign
    } else if i == 11 {
        Row::ChapterTitle
    } else if i == 12 {
        Row::ProgressMode
    } else if i == 13 {
        Row::ProgressBar
    } else if i == 14 {
        Row::BarLength
    } else if i == 15 {
        Row::ProgressPercent
    } else {
        Row::ChapterLoc
    }
}

/// The row at place `i` of the menu, in menu order.
pub fn row_at(i: usize) -> (r: Row)
    requires
        i < ROW_COUNT,
    ensures
        r == row_order(i as int),
{
    if i == 0 {
        Row::MaxWidth
    } else if i == 1 {
        Row::MarginLeft
    } else if i == 2 {
        Row::MarginRight
    } else if i == 3 {
        Row::ScrollLines
    } else if i == 4 {
        Row::Theme
    } else if i == 5 {
        Row::Language
    } else if i == 6 {
        Row::Images
    } else if i == 7 {
        Row::PlainStyles
    } else if i == 8 {
        Row::ShowFooter
    } else if i == 9 {
        Row::DimFooter
    } else if i == 10 {
        Row::FooterAlign
    } else if i == 11 {
        Row::ChapterTitle
    } else if i == 12 {
        Row::ProgressMode
    } else if i == 13 {
        Row::ProgressBar
    } else if i == 14 {
        Row::BarLength
    } else if i == 15 {
        Row::ProgressPercent
    } else {
        Row::ChapterLoc
    }
}

/// The interface text that names a row.
pub open spec fn row_text(row: Row) -> Text {
    match row {
        Row::MaxWidth => Text::MaxWidth,
        Row::MarginLeft => Text::MarginLeft,
        Row::MarginRight => Text::MarginRight,
        Row::ScrollLines => Text::ScrollLines,
        Row::Theme => Text::Theme,
        Row::Language => Text::Language,
        Row::Images => Text::Images,
        Row::PlainStyles => Text::PlainStyles,
        Row::ShowFooter => Text::ShowFooter,
        Row::DimFooter => Text::DimFooter,
        Row::FooterAlign => Text::FooterAlign,
        Row::ChapterTitle => Text::ChapterTitle,
        Row::ProgressMode => Text::ProgressMode,
        Row::ProgressBar => Text::ProgressBar,
        Row::BarLength => Text::BarLength,
        Row::ProgressPercent => Text::ProgressPercent,
        Row::ChapterLoc => Text::ChapterLoc,
    }
}

/// "On" or "Off" in the interface language.
pub open spec fn on_off(on: bool, ui: Language) -> Seq<char> {
    translation(ui, if on { Text::On } else { Text::Off })
}

/// What a row shows for the settings `cfg`, in the interface language `ui`.
pub open spec fn row_value(row: Row, cfg: Config, ui: Language) -> Seq<char> {
    match row {
        Row::MaxWidth => decimal(cfg.max_width as nat),
        Row::MarginLeft => decimal(cfg.margin_left as nat),
        Row::MarginRight => decimal(cfg.margin_right as nat),
        Row::ScrollLines => decimal(cfg.scroll_by_lines as nat),
        Row::Theme => theme_name(cfg.theme, ui),
        Row::Language => language_name(cfg.language, ui),
        Row::Images => setting_name(cfg.images, ui),
        Row::PlainStyles => on_off(cfg.plain_styles, ui),
        Row::ShowFooter => on_off(cfg.show_footer, ui),
        Row::DimFooter => on_off(cfg.dim_footer, ui),
        Row::FooterAlign => translation(
            ui,
            match cfg.footer_align {
                Alignment::Left => Text::Left,
                Alignment::Center => Text::Center,
                Alignment::Right => Text::Right,
            },
        ),
        Row::ChapterTitle => on_off(cfg.show_chapter_title, ui),
        Row::ProgressMode => translation(
            ui,
            match cfg.progress_mode {
                ProgressMode::Chapter => Text::Chapter,
                ProgressMode::Overall => Text::Overall,
            },
        ),
        Row::ProgressBar => on_off(cfg.show_progress_bar, ui),
        Row::BarLength => decimal(cfg.progress_bar_length as nat),
        Row::ProgressPercent => on_off(cfg.show_progress_percentage, ui),
        Row::ChapterLoc => on_off(cfg.show_chapter_location, ui),
    }
}

/// A number moved one step forward or back, then kept within `min..=max`.
pub open spec fn nudged(old: usize, forward: bool, min: int, max: int) -> int {
    let moved = if forward {
        old + 1
    } else if old == 0 {
        0
    } else {
        old - 1
    };
    if moved < min {
        min
    } else if moved > max {
        max
    } else {
        moved
    }
}

/// The footer alignment one step forward (Left, Center, Right, round) or back.
pub open spec fn aligned_next(a: Alignment, forward: bool) -> Alignment {
    match (a, forward) {
        (Alignment::Left, true) | (Alignment::Right, false) => Alignment::Center,
        (Alignment::Center, true) | (Alignment::Left, false) => Alignment::Right,
        (Alignment::Right, true) | (Alignment::Center, false) => Alignment::Left,
    }
}

/// The settings after moving `row` one step.
pub open spec fn stepped(row: Row, cfg: Config, forward: bool) -> Config {
    match row {
        Row::MaxWidth => Config { max_width: nudged(cfg.max_width, forward, 20, 200) as usize, ..cfg },
        Row::MarginLeft => Config { margin_left: nudged(cfg.margin_left, forward, 0, 40) as usize, ..cfg },
        Row::MarginRight => Config { margin_right: nudged(cfg.margin_right, forward, 0, 40) as usize, ..cfg },
        Row::ScrollLines => Config { scroll_by_lines: nudged(cfg.scroll_by_lines, forward, 1, 50) as usize, ..cfg },
        Row::Theme => Config {
            theme: if forward { theme_after(cfg.theme) } else { theme_before(cfg.theme) },
            ..cfg
        },
        Row::Language => Config {
            language: if forward { language_after(cfg.language) } else { language_before(cfg.language) },
            ..cfg
        },
        Row::Images => Config {
            images: if forward { setting_after(cfg.images) } else { setting_before(cfg.images) },
            ..cfg
        },
        Row::PlainStyles => Config { plain_styles: !cfg.plain_styles, ..cfg },
        Row::ShowFooter => Config { show_footer: !cfg.show_footer, ..cfg },
        Row::DimFooter => Config { dim_footer: !cfg.dim_footer, ..cfg },
        Row::FooterAlign => Config { footer_align: aligned_next(cfg.footer_align, forward), ..cfg },
        Row::ChapterTitle => Config { show_chapter_title: !cfg.show_chapter_title, ..cfg },
        Row::ProgressMode => Config {
            progress_mode: match cfg.progress_mode {
                ProgressMode::Chapter => ProgressMode::Overall,
                ProgressMode::Overall => ProgressMode::Chapter,
            },
            ..cfg
        },
        Row::ProgressBar => Config { show_progress_bar: !cfg.show_progress_bar, ..cfg },
        Row::BarLength => Config {
            progress_bar_length: nudged(cfg.progress_bar_length, forward, 5, 100) as usize,
            ..cfg
        },
        Row::ProgressPercent => Config { show_progress_percentage: !cfg.show_progress_percentage, ..cfg },
        Row::ChapterLoc => Config { show_chapter_location: !cfg.show_chapter_location, ..cfg },
    }
}

/// Whether moving `row` one step changes how the chapter is laid out: the
/// text width and margins when they actually move, the theme (half-block
/// pictures blend into its background), the language ([Image] labels are
/// part of the text), pictures and plain styles.
pub open spec fn needs_layout(row: Row, cfg: Config, forward: bool) -> bool {
    match row {
        Row::MaxWidth => nudged(cfg.max_width, forward, 20, 200) != cfg.max_width,
        Row::MarginLeft => nudged(cfg.margin_left, forward, 0, 40) != cfg.margin_left,
        Row::MarginRight => nudged(cfg.margin_right, forward, 0, 40) != cfg.margin_right,
        Row::Theme | Row::Language | Row::Images | Row::PlainStyles => true,
        _ => false,
    }
}

fn nudge(old: usize, forward: bool, min: usize, max: usize) -> (r: usize)
    requires
        min <= max,
    ensures
        r == nudged(old, forward, min as int, max as int),
{
    let moved = if forward {
        old.saturating_add(1)
    } else {
        old.saturating_sub(1)
    };
    if moved < min {
        min
    } else if moved > max {
        max
    } else {
        moved
    }
}

fn on_off_text(on: bool, ui: Language) -> (r: String)
    ensures
        r@ == on_off(on, ui),
{
    let s = tr(ui, if on { Text::On } else { Text::Off });
    let v = crate::text::chars_of(s);
    string_of(&v)
}

fn static_text(s: &str) -> (r: String)
    ensures
        r@ == s@,
{
    let v = crate::text::chars_of(s);
    string_of(&v)
}

fn number_text(n: usize) -> (r: String)
    ensures
        r@ == decimal(n as nat),
{
    let v = decimal_chars(n as u64);
    string_of(&v)
}

impl Row {
    /// The row's name in the interface language `ui`.
    pub fn label(self, ui: Language) -> (r: &'static str)
        ensures
            r@ == translation(ui, row_text(self)),
    {
        tr(
            ui,
            match self {
                Row::MaxWidth => Text::MaxWidth,
                Row::MarginLeft => Text::MarginLeft,
                Row::MarginRight => Text::MarginRight,
                Row::ScrollLines => Text::ScrollLines,
                Row::Theme => Text::Theme,
                Row::Language => Text::Language,
                Row::Images => Text::Images,
                Row::PlainStyles => Text::PlainStyles,
                Row::ShowFooter => Text::ShowFooter,
                Row::DimFooter => Text::DimFooter,
                Row::FooterAlign => Text::FooterAlign,
                Row::ChapterTitle => Text::ChapterTitle,
                Row::ProgressMode => Text::ProgressMode,
                Row::ProgressBar => Text::ProgressBar,
                Row::BarLength => Text::BarLength,
                Row::ProgressPercent => Text::ProgressPercent,
                Row::ChapterLoc => Text::ChapterLoc,
            },
        )
    }

    /// What the row shows for `cfg`, in the interface language `ui`.
    pub fn value(self, cfg: &Config, ui: Language) -> (r: String)
        ensures
            r@ == row_value(self, *cfg, ui),
    {
        match self {
            Row::MaxWidth => number_text(cfg.max_width),
            Row::MarginLeft => number_text(cfg.margin_left),
            Row::MarginRight => number_text(cfg.margin_right),
            Row::ScrollLines => number_text(cfg.scroll_by_lines),
            Row::Theme => static_text(cfg.theme.name(ui)),
            Row::Language => static_text(cfg.language.name(ui)),
            Row::Images => static_text(cfg.images.name(ui)),
            Row::PlainStyles => on_off_text(cfg.plain_styles, ui),
            Row::ShowFooter => on_off_text(cfg.show_footer, ui),
            Row::DimFooter => on_off_text(cfg.dim_footer, ui),
            Row::FooterAlign => static_text(
                tr(
                    ui,
                    match cfg.footer_align {
                        Alignment::Left => Text::Left,
                        Alignment::Center => Text::Center,
                        Alignment::Right => Text::Right,
                    },
                ),
            ),
            Row::ChapterTitle => on_off_text(cfg.show_chapter_title, ui),
            Row::ProgressMode => static_text(
                tr(
                    ui,
                    match cfg.progress_mode {
                        ProgressMode::Chapter => Text::Chapter,
                        ProgressMode::Overall => Text::Overall,
                    },
                ),
            ),
            Row::ProgressBar => on_off_text(cfg.show_progress_bar, ui),
            Row::BarLength => number_text(cfg.progress_bar_length),
            Row::ProgressPercent => on_off_text(cfg.show_progress_percentage, ui),
            Row::ChapterLoc => on_off_text(cfg.show_chapter_location, ui),
        }
    }

    /// Moves the setting one step, forward (l, Right) or back (h, Left).
    /// Returns true when the chapter has to be laid out again. A new
    /// language also becomes the interface language, which the caller
    /// resolves with `i18n::set`.
    pub fn step(self, cfg: &mut Config, forward: bool) -> (r: bool)
        ensures
            *final(cfg) == stepped(self, *old(cfg), forward),
            r == needs_layout(self, *old(cfg), forward),
    {
        match self {
            Row::MaxWidth | Row::MarginLeft | Row::MarginRight | Row::ScrollLines | Row::BarLength => {
                step_number(self, cfg, forward)
            },
            Row::Theme | Row::Language | Row::Images | Row::FooterAlign | Row::ProgressMode => {
                step_choice(self, cfg, forward)
            },
            _ => step_switch(self, cfg, forward),
        }
    }
}

fn step_number(row: Row, cfg: &mut Config, forward: bool) -> (r: bool)
    requires
        row == Row::MaxWidth || row == Row::MarginLeft || row == Row::MarginRight
            || row == Row::ScrollLines || row == Row::BarLength,
    ensures
        *final(cfg) == stepped(row, *old(cfg), forward),
        r == needs_layout(row, *old(cfg), forward),
{
    match row {
        Row::MaxWidth => {
            let before = cfg.max_width;
            cfg.max_width = nudge(before, forward, 20, 200);
            cfg.max_width != before
        },
        Row::MarginLeft => {
            let before = cfg.margin_left;
            cfg.margin_left = nudge(before, forward, 0, 40);
            cfg.margin_left != before
        },
        Row::MarginRight => {
            let before = cfg.margin_right;
            cfg.margin_right = nudge(before, forward, 0, 40);
            cfg.margin_right != before
        },
        Row::ScrollLines => {
            cfg.scroll_by_lines = nudge(cfg.scroll_by_lines, forward, 1, 50);
            false
        },
        _ => {
            cfg.progress_bar_length = nudge(cfg.progress_bar_length, forward, 5, 100);
            false
        },
    }
}

fn step_choice(row: Row, cfg: &mut Config, forward: bool) -> (r: bool)
    requires
        row == Row::Theme || row == Row::Language || row == Row::Images
            || row == Row::FooterAlign || row == Row::ProgressMode,
    ensures
        *final(cfg) == stepped(row, *old(cfg), forward),
        r == needs_layout(row, *old(cfg), forward),
{
    match row {
        Row::Theme => {
            cfg.theme = if forward {
                cfg.theme.next()
            } else {
                cfg.theme.prev()
            };
            true
        },
        Row::Language => {
            cfg.language = if forward {
                cfg.language.next()
            } else {
                cfg.language.prev()
            };
            true
        },
        Row::Images => {
            cfg.images = if forward {
                cfg.images.next()
            } else {
                cfg.images.prev()
            };
            true
        },
        Row::FooterAlign => {
            cfg.footer_align = match (cfg.footer_align, forward) {
                (Alignment::Left, true) | (Alignment::Right, false) => Alignment::Center,
                (Alignment::Center, true) | (Alignment::Left, false) => Alignment::Right,
                (Alignment::Right, true) | (Alignment::Center, false) => Alignment::Left,
            };
            false
        },
        _ => {
            cfg.progress_mode = match cfg.progress_mode {
                ProgressMode::Chapter => ProgressMode::Overall,
                ProgressMode::Overall => ProgressMode::Chapter,
            };
            false
        },
    }
}

fn step_switch(row: Row, cfg: &mut Config, forward: bool) -> (r: bool)
    requires
        row == Row::PlainStyles || row == Row::ShowFooter || row == Row::DimFooter
            || row == Row::ChapterTitle || row == Row::ProgressBar || row == Row::ProgressPercent
            || row == Row::ChapterLoc,
    ensures
        *final(cfg) == stepped(row, *old(cfg), forward),
        r == needs_layout(row, *old(cfg), forward),
{
    match row {
        Row::PlainStyles => {
            cfg.plain_styles = !cfg.plain_styles;
            true
        },
        Row::ShowFooter => {
            cfg.show_footer = !cfg.show_footer;
            false
        },
        Row::DimFooter => {
            cfg.dim_footer = !cfg.dim_footer;
            false
        },
        Row::ChapterTitle => {
            cfg.show_chapter_title = !cfg.show_chapter_title;
            false
        },
        Row::ProgressBar => {
            cfg.show_progress_bar = !cfg.show_progress_bar;
            false
        },
        Row::ProgressPercent => {
            cfg.show_progress_percentage = !cfg.show_progress_percentage;
            false
        },
        _ => {
            cfg.show_chapter_location = !cfg.show_chapter_location;
            false
        },
    }
}

/// A step forward then a step back leaves every setting but the numbers
/// where it was; numbers come back too when the first step moved them
/// without being held at the edge of their range.
#[verifier::spinoff_prover]
#[verifier::rlimit(60)]
pub proof fn law_step_round_trip(row: Row, cfg: Config)
    requires
        match row {
            Row::MaxWidth => 20 <= cfg.max_width < 200,
            Row::MarginLeft => cfg.margin_left < 40,
            Row::MarginRight => cfg.margin_right < 40,
            Row::ScrollLines => 1 <= cfg.scroll_by_lines < 50,
            Row::BarLength => 5 <= cfg.progress_bar_length < 100,
            _ => true,
        },
    ensures
        stepped(row, stepped(row, cfg, true), false) == cfg,
{
    match row {
        Row::Theme => crate::config::law_theme_cycle(cfg.theme),
        Row::Language => crate::i18n::law_language_cycle(cfg.language),
        Row::Images => crate::images::law_setting_cycle(cfg.images),
        Row::MaxWidth => {},
        Row::MarginLeft => {},
        Row::MarginRight => {},
        Row::ScrollLines => {},
        Row::PlainStyles => {},
        Row::ShowFooter => {},
        Row::DimFooter => {},
        Row::FooterAlign => {},
        Row::ChapterTitle => {},
        Row::ProgressMode => {},
        Row::ProgressBar => {},
        Row::BarLength => {},
        Row::ProgressPercent => {},
        Row::ChapterLoc => {},
    }
}

/// Numbers never leave their ranges once inside them.
pub proof fn law_step_keeps_ranges(row: Row, cfg: Config, forward: bool)
    requires
        20 <= cfg.max_width <= 200,
        cfg.margin_left <= 40,
        cfg.margin_right <= 40,
        1 <= cfg.scroll_by_lines <= 50,
        5 <= cfg.progress_bar_length <= 100,
    ensures
        20 <= stepped(row, cfg, forward).max_width <= 200,
        stepped(row, cfg, forward).margin_left <= 40,
        stepped(row, cfg, forward).margin_right <= 40,
        1 <= stepped(row, cfg, forward).scroll_by_lines <= 50,
        5 <= stepped(row, cfg, forward).progress_bar_length <= 100,
{
}

} // verus!
