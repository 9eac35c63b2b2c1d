use moosereader::config::{Alignment, Config, Theme};
use moosereader::i18n::Language;
use moosereader::render::{
    background, draw_reading_view, draw_settings_menu, draw_toc_menu, footer, get_palette, Color, Ink, Piece,
};
use moosereader::ui::open_state;
use moosereader::width::width;

fn texts(pieces: &[Piece]) -> Vec<String> {
    pieces.iter().map(|p| p.text.clone()).collect()
}

#[test]
fn themes_have_their_colors() {
    let p = get_palette(&Theme::Dracula);
    assert_eq!(p.bg, Color::Rgb { r: 40, g: 42, b: 54 });
    assert_eq!(p.accent, Color::Rgb { r: 189, g: 147, b: 249 });
    let d = get_palette(&Theme::Default);
    assert_eq!((d.bg, d.fg, d.dim), (Color::Reset, Color::Reset, Color::DarkGrey));
    assert_eq!(background(&p), (40, 42, 54));
    assert_eq!(background(&d), (0, 0, 0));
}

#[test]
fn the_footer_shows_what_the_settings_ask_for() {
    let cfg = Config::default();
    let (padding, text) = footer(&cfg, 100, "Chapter One", 3, "25", 1, 8).unwrap();
    assert_eq!(text, "--- Chapter One [███░░░░░░░] 25% (2/8) ---");
    // Centered in the 80 columns of text after the left margin of 4
    assert_eq!(padding, 4 + (80 - 42) / 2);
    let mut left = Config::default();
    left.footer_align = Alignment::Left;
    left.show_progress_bar = false;
    left.show_chapter_title = false;
    assert_eq!(footer(&left, 100, "Chapter One", 3, "25", 1, 8), Some((4, "--- 25% (2/8) ---".to_string())));
    let mut hidden = Config::default();
    hidden.show_footer = false;
    assert_eq!(footer(&hidden, 100, "x", 0, "0", 0, 1), None);
    let mut empty = Config::default();
    empty.show_chapter_title = false;
    empty.show_progress_bar = false;
    empty.show_progress_percentage = false;
    empty.show_chapter_location = false;
    assert_eq!(footer(&empty, 100, "x", 0, "0", 0, 1), None);
}

#[test]
fn a_long_title_is_shortened_before_the_numbers() {
    let mut cfg = Config::default();
    cfg.show_progress_bar = false;
    let (_, text) = footer(&cfg, 34, "A Very Long Chapter Title Indeed", 0, "50", 0, 3).unwrap();
    // 30 columns: the title gives way, the numbers stay
    assert_eq!(text, "--- A Very Long… 50% (1/3) ---");
}

#[test]
fn the_page_shows_its_lines_and_the_footer_below() {
    let cfg = Config::default();
    let mut app = open_state(&cfg, 100, 5, None, 2);
    app.offset = 1;
    let lines: Vec<String> = ["zero", "one", "two", "\u{1d}0\u{1f}1\u{1f}0\u{1f}1\u{1f}p.png", "four"]
        .iter()
        .map(|s| s.to_string())
        .collect();
    let pieces = draw_reading_view(&app, &cfg, &lines, "T", 0, "0", 2);
    assert_eq!(pieces.len(), 4);
    assert_eq!(texts(&pieces[..3]), ["one\r", "two\r", ""]);
    assert_eq!(pieces[2].at, Some((0, 2)));
    assert_eq!(pieces[3].at, Some((0, 4)));
    assert_eq!(pieces[3].fg, Ink::Dim);
    assert!(pieces[3].text.trim_start().starts_with("--- T [░░░░░░░░░░] 0% (1/2) ---"));
}

#[test]
fn the_table_of_contents_scrolls_to_the_cursor() {
    let cfg = Config::default();
    let mut app = open_state(&cfg, 100, 14, None, 30);
    let titles: Vec<String> = (0..30).map(|i| format!("Chapter {i}")).collect();
    app.toc_cursor = 20;
    let pieces = draw_toc_menu(&mut app, &cfg, &titles, Language::English);
    // Ten rows high: eight chapters between the edges
    assert_eq!(app.toc_top, 13);
    assert_eq!(pieces.len(), 3 + 8 + 1);
    assert_eq!(pieces[1].text, " Table of Contents ");
    assert!(pieces[1].bold);
    let last = &pieces[3 + 7];
    assert!(last.text.starts_with("│ > Chapter 20"), "{:?}", last.text);
    assert_eq!((last.fg, last.bg), (Ink::Bg, Ink::Accent));
    assert!(pieces[3].text.starts_with("│   Chapter 13"));
    assert_eq!(pieces[11].text, format!("╰{}╯", "─".repeat(68)));
}

#[test]
fn the_settings_box_lists_both_groups() {
    let cfg = Config::default();
    let app = open_state(&cfg, 100, 40, None, 1);
    let pieces = draw_settings_menu(&app, &cfg, Language::English);
    // Title, blank, heading, blank, heading, 17 rows of three pieces, blank and bottom
    assert_eq!(pieces.len(), 3 + 1 + 3 + 1 + 3 + 17 * 3 + 2);
    assert_eq!(pieces[1].text, " Settings ");
    assert!(pieces[5].text.contains("--- Main UI ---"));
    let first = &pieces[11 + 1];
    assert!(first.text.contains("Max Width") && first.text.contains("< ") && first.text.contains("80 >"), "{:?}", first.text);
    assert_eq!(pieces[11].at.map(|(_, y)| y), Some((40 - 24) / 2 + 3));
    // The footer group starts two rows further down
    assert_eq!(pieces[11 + 8 * 3].at.map(|(_, y)| y), Some((40 - 24) / 2 + 3 + 8 + 2));
}

#[test]
fn the_footer_never_wraps() {
    let mut cfg = Config::default();
    for cols in [12u16, 20, 34, 60] {
        for align in [Alignment::Left, Alignment::Center, Alignment::Right] {
            cfg.footer_align = align;
            if let Some((padding, text)) = footer(&cfg, cols, "地铁站的生活 and more", 7, "50", 2, 9) {
                assert!(padding >= cfg.margin_left);
                assert!(padding + width(&text) <= cols as usize, "{cols} {padding} {text}");
            }
        }
    }
}
