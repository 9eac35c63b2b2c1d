use moosereader::config::Config;
use moosereader::settings::ROW_COUNT;
use moosereader::ui::{
    bookmark_step,
    enter_chapter, handle_key, handle_reading_input, handle_resize, handle_settings_input, handle_toc_input, keep_offset,
    open_state, page_lines, text_columns, Action, AppMode, AppState, Key,
};

fn reading(cfg: &Config) -> AppState {
    open_state(cfg, 100, 30, None, 5)
}

#[test]
fn the_text_width_follows_the_window() {
    let cfg = Config::default();
    assert_eq!(text_columns(&cfg, 100), 80);
    assert_eq!(text_columns(&cfg, 50), 42);
    assert_eq!(text_columns(&cfg, 12), 10);
    assert_eq!(page_lines(&cfg, 30), 28);
    let mut hidden = Config::default();
    hidden.show_footer = false;
    assert_eq!(page_lines(&hidden, 30), 30);
    assert_eq!(page_lines(&cfg, 1), 0);
}

#[test]
fn a_book_opens_at_its_bookmark() {
    let cfg = Config::default();
    let app = open_state(&cfg, 100, 30, Some(3), 5);
    assert_eq!((app.chapter_index, app.toc_cursor, app.offset), (3, 3, 0));
    assert_eq!(app.mode, AppMode::Reading);
    // A bookmark past the end is held to the last chapter
    assert_eq!(open_state(&cfg, 100, 30, Some(9), 5).chapter_index, 4);
    assert_eq!(keep_offset(50, 40, 28), 12);
    assert_eq!(keep_offset(50, 20, 28), 0);
    assert_eq!(keep_offset(10, 40, 28), 10);
}

#[test]
fn scrolling_moves_through_the_chapter_and_on() {
    let mut cfg = Config::default();
    let mut app = reading(&cfg);
    assert_eq!(handle_reading_input(Key::Down, &mut app, &mut cfg, 100, 5), Action::Redraw);
    assert_eq!(app.offset, 1);
    assert_eq!(handle_reading_input(Key::Char(' '), &mut app, &mut cfg, 100, 5), Action::Redraw);
    assert_eq!(app.offset, 3);
    app.offset = 71;
    handle_reading_input(Key::Char('l'), &mut app, &mut cfg, 100, 5);
    assert_eq!(app.offset, 72, "stops at the last page");
    assert_eq!(
        handle_reading_input(Key::Char('j'), &mut app, &mut cfg, 100, 5),
        Action::LoadChapter { at_end: false }
    );
    assert_eq!(app.chapter_index, 1);
    enter_chapter(&mut app, false, 100);
    assert_eq!(app.offset, 0);
    assert_eq!(
        handle_reading_input(Key::Up, &mut app, &mut cfg, 100, 5),
        Action::LoadChapter { at_end: true }
    );
    assert_eq!(app.chapter_index, 0);
    enter_chapter(&mut app, true, 100);
    assert_eq!(app.offset, 72);
    assert_eq!(handle_reading_input(Key::Char('q'), &mut app, &mut cfg, 100, 5), Action::Quit);
}

#[test]
fn the_first_and_last_chapters_stay_put() {
    let mut cfg = Config::default();
    let mut app = reading(&cfg);
    assert_eq!(handle_reading_input(Key::Left, &mut app, &mut cfg, 10, 1), Action::Redraw);
    assert_eq!((app.chapter_index, app.offset), (0, 0));
    assert_eq!(handle_reading_input(Key::Right, &mut app, &mut cfg, 10, 1), Action::Redraw);
    assert_eq!((app.chapter_index, app.offset), (0, 0));
}

#[test]
fn the_footer_key_frees_two_rows_and_saves() {
    let mut cfg = Config::default();
    let mut app = reading(&cfg);
    assert_eq!(handle_reading_input(Key::Char('f'), &mut app, &mut cfg, 10, 1), Action::SaveConfig);
    assert!(!cfg.show_footer);
    assert_eq!(app.lines_per_page, 30);
}

#[test]
fn the_table_of_contents_opens_at_the_chapter_and_jumps() {
    let mut cfg = Config::default();
    let mut app = open_state(&cfg, 100, 30, Some(2), 5);
    handle_reading_input(Key::Tab, &mut app, &mut cfg, 10, 5);
    assert_eq!((app.mode, app.toc_cursor), (AppMode::TocMenu, 2));
    handle_toc_input(Key::Down, &mut app, 5);
    handle_toc_input(Key::Down, &mut app, 5);
    handle_toc_input(Key::Down, &mut app, 5);
    assert_eq!(app.toc_cursor, 4);
    assert_eq!(handle_toc_input(Key::Enter, &mut app, 5), Action::LoadChapter { at_end: false });
    assert_eq!((app.mode, app.chapter_index), (AppMode::Reading, 4));
    handle_reading_input(Key::Tab, &mut app, &mut cfg, 10, 5);
    handle_toc_input(Key::Up, &mut app, 5);
    assert_eq!(handle_toc_input(Key::Esc, &mut app, 5), Action::Redraw);
    assert_eq!((app.mode, app.chapter_index), (AppMode::Reading, 4));
}

#[test]
fn the_settings_menu_steps_and_saves_on_close() {
    let mut cfg = Config::default();
    let mut app = reading(&cfg);
    handle_reading_input(Key::Char('s'), &mut app, &mut cfg, 10, 5);
    assert_eq!((app.mode, app.settings_cursor), (AppMode::SettingsMenu, 0));
    assert_eq!(handle_settings_input(Key::Right, &mut app, &mut cfg), Action::Relayout { language: false });
    assert_eq!(cfg.max_width, 81);
    handle_settings_input(Key::Up, &mut app, &mut cfg);
    assert_eq!(app.settings_cursor, ROW_COUNT - 1);
    handle_settings_input(Key::Down, &mut app, &mut cfg);
    assert_eq!(app.settings_cursor, 0);
    for _ in 0..5 {
        handle_settings_input(Key::Char('j'), &mut app, &mut cfg);
    }
    assert_eq!(handle_settings_input(Key::Char('l'), &mut app, &mut cfg), Action::Relayout { language: true });
    for _ in 0..3 {
        handle_settings_input(Key::Down, &mut app, &mut cfg);
    }
    assert_eq!(handle_settings_input(Key::Left, &mut app, &mut cfg), Action::Redraw);
    assert!(!cfg.show_footer);
    assert_eq!(handle_settings_input(Key::Enter, &mut app, &mut cfg), Action::SaveConfig);
    assert_eq!((app.mode, app.lines_per_page), (AppMode::Reading, 30));
}

#[test]
fn control_c_quits_from_anywhere() {
    let mut cfg = Config::default();
    let mut app = reading(&cfg);
    app.mode = AppMode::SettingsMenu;
    assert_eq!(handle_key(Key::Char('c'), true, &mut app, &mut cfg, 10, 5), Action::Quit);
    assert_eq!(handle_key(Key::Char('c'), false, &mut app, &mut cfg, 10, 5), Action::Redraw);
    assert_eq!(handle_key(Key::Esc, false, &mut app, &mut cfg, 10, 5), Action::SaveConfig);
}

#[test]
fn resizing_recomputes_the_page() {
    let cfg = Config::default();
    let mut app = reading(&cfg);
    handle_resize(60, 20, &mut app, &cfg);
    assert_eq!((app.term_cols, app.term_rows, app.dynamic_width, app.lines_per_page), (60, 20, 52, 18));
}

#[test]
fn toggling_the_footer_twice_changes_nothing() {
    let mut cfg = Config::default();
    let mut app = reading(&cfg);
    let (app0, shown) = (app, cfg.show_footer);
    assert_eq!(handle_reading_input(Key::Char('F'), &mut app, &mut cfg, 10, 1), Action::SaveConfig);
    assert_eq!(handle_reading_input(Key::Char('f'), &mut app, &mut cfg, 10, 1), Action::SaveConfig);
    assert_eq!(format!("{app:?}"), format!("{app0:?}"));
    assert_eq!(cfg.show_footer, shown);
}

#[test]
fn the_bookmark_is_saved_once_reading_pauses() {
    // A key that moves leaves the position waiting; a pause saves it once
    assert_eq!(bookmark_step(false, true, true), (true, false));
    assert_eq!(bookmark_step(true, true, false), (true, false));
    assert_eq!(bookmark_step(true, false, false), (false, true));
    assert_eq!(bookmark_step(false, false, false), (false, false));
}
