use moosereader::config::{Alignment, Config, ProgressMode, Theme};
use moosereader::i18n::Language;
use moosereader::images::Setting;
use moosereader::settings::{row_at, Row, MAIN_ROWS, ROW_COUNT};

#[test]
fn defaults_are_a_comfortable_page() {
    let cfg = Config::default();
    assert_eq!((cfg.max_width, cfg.margin_left, cfg.margin_right, cfg.scroll_by_lines), (80, 4, 4, 2));
    assert_eq!(cfg.theme, Theme::Default);
    assert_eq!(cfg.footer_align, Alignment::Center);
    assert_eq!(cfg.progress_mode, ProgressMode::Overall);
    assert_eq!(cfg.language, Language::Auto);
    assert_eq!(cfg.images, Setting::Auto);
    assert!(!cfg.plain_styles);
}

#[test]
fn rows_show_their_names_and_values() {
    let cfg = Config::default();
    assert_eq!(Row::MaxWidth.label(Language::English), "Max Width");
    assert_eq!(Row::MaxWidth.value(&cfg, Language::English), "80");
    assert_eq!(Row::Theme.value(&cfg, Language::English), "Terminal");
    assert_eq!(Row::Language.value(&cfg, Language::English), "Auto");
    assert_eq!(Row::ShowFooter.value(&cfg, Language::English), "On");
    assert_eq!(Row::PlainStyles.value(&cfg, Language::English), "Off");
    assert_eq!(Row::FooterAlign.value(&cfg, Language::English), "Center");
    assert_eq!(Row::ProgressMode.value(&cfg, Language::English), "Overall");
    assert_eq!(Row::BarLength.value(&cfg, Language::English), "10");
    assert_ne!(Row::ShowFooter.value(&cfg, Language::German), "On");
}

#[test]
fn numbers_move_by_one_within_their_range() {
    let mut cfg = Config::default();
    assert!(Row::MaxWidth.step(&mut cfg, true));
    assert_eq!(cfg.max_width, 81);
    cfg.max_width = 200;
    assert!(!Row::MaxWidth.step(&mut cfg, true), "held at the top of its range");
    assert_eq!(cfg.max_width, 200);
    cfg.margin_left = 0;
    assert!(!Row::MarginLeft.step(&mut cfg, false));
    assert_eq!(cfg.margin_left, 0);
    // Scrolling does not change the layout
    assert!(!Row::ScrollLines.step(&mut cfg, true));
    assert_eq!(cfg.scroll_by_lines, 3);
    cfg.progress_bar_length = 5;
    assert!(!Row::BarLength.step(&mut cfg, false));
    assert_eq!(cfg.progress_bar_length, 5);
    // Values out of range come back into it
    cfg.max_width = 1000;
    assert!(Row::MaxWidth.step(&mut cfg, false));
    assert_eq!(cfg.max_width, 200);
}

#[test]
fn choices_cycle_and_switches_toggle() {
    let mut cfg = Config::default();
    assert!(Row::Theme.step(&mut cfg, false));
    assert_eq!(cfg.theme, Theme::Oceanic);
    assert!(Row::Language.step(&mut cfg, true));
    assert_eq!(cfg.language, Language::English);
    assert!(Row::Images.step(&mut cfg, true));
    assert_eq!(cfg.images, Setting::Kitty);
    assert!(!Row::FooterAlign.step(&mut cfg, true));
    assert_eq!(cfg.footer_align, Alignment::Right);
    assert!(!Row::FooterAlign.step(&mut cfg, true));
    assert_eq!(cfg.footer_align, Alignment::Left);
    assert!(!Row::DimFooter.step(&mut cfg, true));
    assert!(!cfg.dim_footer);
    assert!(Row::PlainStyles.step(&mut cfg, false));
    assert!(cfg.plain_styles);
    assert!(!Row::ProgressMode.step(&mut cfg, true));
    assert_eq!(cfg.progress_mode, ProgressMode::Chapter);
}

#[test]
fn the_menu_lists_every_row_once() {
    assert_eq!(ROW_COUNT, 17);
    assert_eq!(MAIN_ROWS, 8);
    assert_eq!(row_at(0), Row::MaxWidth);
    assert_eq!(row_at(MAIN_ROWS), Row::ShowFooter);
    assert_eq!(row_at(ROW_COUNT - 1), Row::ChapterLoc);
    for i in 0..ROW_COUNT {
        for j in 0..i {
            assert_ne!(row_at(i), row_at(j));
        }
    }
}

#[test]
fn a_step_forward_and_back_returns() {
    for i in 0..ROW_COUNT {
        let mut cfg = Config::default();
        let row = row_at(i);
        row.step(&mut cfg, true);
        row.step(&mut cfg, false);
        let d = Config::default();
        assert_eq!(row.value(&cfg, Language::English), row.value(&d, Language::English), "{row:?}");
    }
}

#[test]
fn themes_cycle_back_to_where_they_started() {
    let mut theme = Theme::Default;
    for _ in 0..11 {
        theme = theme.next();
    }
    assert_eq!(theme, Theme::Default);
    assert_eq!(Theme::Oceanic.next(), Theme::Default);
    assert_eq!(Theme::Default.prev(), Theme::Oceanic);
    assert_eq!(Theme::Nord.next().prev(), Theme::Nord);
    assert_eq!(Theme::SolarizedLight.name(Language::English), "Sol Light");
}
