//! The reader's decisions between keystrokes: how a key moves through the
//! book and the menus, and how the page follows the window and settings.
//! The terminal loop performs what each decision asks for (loading a
//! chapter, laying it out again, saving the settings) and hands back what
//! came of it.

use vstd::prelude::*;
use crate::config::Config;
use crate::settings::{needs_layout, row_at, row_order, stepped, Row, ROW_COUNT};

verus! {

#[derive(PartialEq, Eq, Structural, Clone, Copy, Debug)]
pub enum AppMode {
    Reading,
    TocMenu,
    SettingsMenu,
}

/// Where the reader is and how the window is cut up.
#[derive(Clone, Copy, Debug)]
pub struct AppState {
    pub mode: AppMode,
    pub chapter_index: usize,
    /// The first line of the chapter on screen
    pub offset: usize,
    /// Columns the text is wrapped to
    pub dynamic_width: usize,
    pub lines_per_page: usize,
    pub toc_cursor: usize,
    /// The first chapter the table of contents shows
    pub toc_top: usize,
    pub settings_cursor: usize,
    pub term_cols: u16,
    pub term_rows: u16,
}

/// A key as the reader tells keys apart.
#[derive(PartialEq, Eq, Structural, Clone, Copy, Debug)]
pub enum Key {
    Char(char),
    Tab,
    Esc,
    Enter,
    Up,
    Down,
    Left,
    Right,
    Other,
}

/// What the terminal loop does after a key.
#[derive(PartialEq, Eq, Structural, Clone, Copy, Debug)]
pub enum Action {
    /// Only draw again
    Redraw,
    /// Save the bookmark and leave
    Quit,
    /// Load the chapter `chapter_index` now names, then `enter_chapter`
    LoadChapter { at_end: bool },
    /// Write the settings file
    SaveConfig,
    /// Lay the chapter out again keeping the reading progress; when
    /// `language` is set the interface language follows the new setting first
    Relayout { language: bool },
}

/// Columns for the text: the configured width, narrowed to the window less
/// its margins, but never under 10.
pub open spec fn text_width(cfg: Config, term_cols: u16) -> int {
    let room = term_cols - cfg.margin_left - cfg.margin_right;
    let room = if room < 0 { 0 } else { room };
    let w = if cfg.max_width < room { cfg.max_width as int } else { room };
    if w < 10 { 10 } else { w }
}

/// Rows for text: the window less two for the footer when it shows.
pub open spec fn page_rows(cfg: Config, term_rows: u16) -> int {
    let footer = if cfg.show_footer { 2int } else { 0int };
    if term_rows < footer { 0 } else { term_rows - footer }
}

/// An offset kept inside a chapter of `lines` lines: past the end it moves
/// back to show the last page.
pub open spec fn kept_offset(offset: int, lines: int, page: int) -> int {
    if offset >= lines {
        if lines < page { 0 } else { lines - page }
    } else {
        offset
    }
}

/// The offset that shows the last page of a chapter of `lines` lines.
pub open spec fn last_page(lines: int, page: int) -> int {
    if lines > page { lines - page } else { 0 }
}

/// Columns for the text in a window `term_cols` wide.
pub fn text_columns(cfg: &Config, term_cols: u16) -> (r: usize)
    ensures
        r == text_width(*cfg, term_cols),
{
    let room = (term_cols as usize).saturating_sub(cfg.margin_left.saturating_add(cfg.margin_right));
    let w = if cfg.max_width < room { cfg.max_width } else { room };
    if w < 10 { 10 } else { w }
}

/// Rows for text in a window `term_rows` high.
pub fn page_lines(cfg: &Config, term_rows: u16) -> (r: usize)
    ensures
        r == page_rows(*cfg, term_rows),
{
    (term_rows as usize).saturating_sub(if cfg.show_footer { 2 } else { 0 })
}

/// `offset`, or the last page when it lies past the end of the chapter.
pub fn keep_offset(offset: usize, lines: usize, page: usize) -> (r: usize)
    ensures
        r == kept_offset(offset as int, lines as int, page as int),
{
    if offset >= lines {
        lines.saturating_sub(page)
    } else {
        offset
    }
}

/// The state on opening a book with `chapters` chapters: reading, at the
/// saved chapter (held to the last one) or the first, at its top.
pub open spec fn opened(cfg: Config, term_cols: u16, term_rows: u16, saved: Option<usize>, chapters: int) -> AppState {
    let chapter = match saved {
        Some(c) => if c < chapters - 1 { c as int } else if chapters < 1 { 0 } else { chapters - 1 },
        None => 0,
    };
    AppState {
        mode: AppMode::Reading,
        chapter_index: chapter as usize,
        offset: 0,
        dynamic_width: text_width(cfg, term_cols) as usize,
        lines_per_page: page_rows(cfg, term_rows) as usize,
        toc_cursor: chapter as usize,
        toc_top: 0,
        settings_cursor: 0,
        term_cols,
        term_rows,
    }
}

/// The state a book opens in, at the chapter of its bookmark if it has one.
pub fn open_state(cfg: &Config, term_cols: u16, term_rows: u16, saved: Option<usize>, chapters: usize) -> (r: AppState)
    ensures
        r == opened(*cfg, term_cols, term_rows, saved, chapters as int),
{
    let chapter = match saved {
        Some(c) => if c < chapters.saturating_sub(1) { c } else { chapters.saturating_sub(1) },
        None => 0,
    };
    AppState {
        mode: AppMode::Reading,
        chapter_index: chapter,
        offset: 0,
        dynamic_width: text_columns(cfg, term_cols),
        lines_per_page: page_lines(cfg, term_rows),
        toc_cursor: chapter,
        toc_top: 0,
        settings_cursor: 0,
        term_cols,
        term_rows,
    }
}

/// Where a freshly loaded chapter of `lines` lines is shown from: its top,
/// or its last page when the reader came back into it from the next one.
pub fn enter_chapter(app: &mut AppState, at_end: bool, lines: usize)
    ensures
        *final(app) == (AppState {
            offset: if at_end { last_page(lines as int, old(app).lines_per_page as int) as usize } else { 0 },
            ..*old(app)
        }),
{
    app.offset = if at_end && lines > app.lines_per_page {
        lines - app.lines_per_page
    } else {
        0
    };
}

/// Whether there is text below the page.
pub open spec fn more_below(app: AppState, lines: int) -> bool {
    app.offset + app.lines_per_page < lines
}

/// The reading view after `key`, in a chapter of `lines` lines of a book of
/// `chapters` chapters, with the action the key asks for.
pub open spec fn reading_key(key: Key, app: AppState, cfg: Config, lines: int, chapters: int) -> (AppState, Config, Action) {
    match key {
        Key::Char('q') => (app, cfg, Action::Quit),
        Key::Tab => (AppState { mode: AppMode::TocMenu, toc_cursor: app.chapter_index, ..app }, cfg, Action::Redraw),
        Key::Char('S') | Key::Char('s') => (
            AppState { mode: AppMode::SettingsMenu, settings_cursor: 0, ..app },
            cfg,
            Action::Redraw,
        ),
        Key::Char('F') | Key::Char('f') => {
            let shown = Config { show_footer: !cfg.show_footer, ..cfg };
            (AppState { lines_per_page: page_rows(shown, app.term_rows) as usize, ..app }, shown, Action::SaveConfig)
        },
        Key::Char('j') | Key::Char('J') | Key::Down => if more_below(app, lines) {
            (AppState { offset: (app.offset + 1) as usize, ..app }, cfg, Action::Redraw)
        } else {
            (next_chapter(app, chapters).0, cfg, next_chapter(app, chapters).1)
        },
        Key::Char('k') | Key::Char('K') | Key::Up => if app.offset > 0 {
            (AppState { offset: (app.offset - 1) as usize, ..app }, cfg, Action::Redraw)
        } else {
            (previous_chapter(app).0, cfg, previous_chapter(app).1)
        },
        Key::Char('l') | Key::Char('L') | Key::Right | Key::Char(' ') => if more_below(app, lines) {
            let end = lines - app.lines_per_page;
            let moved = app.offset + cfg.scroll_by_lines;
            (AppState { offset: (if moved < end { moved } else { end }) as usize, ..app }, cfg, Action::Redraw)
        } else {
            (next_chapter(app, chapters).0, cfg, next_chapter(app, chapters).1)
        },
        Key::Char('h') | Key::Char('H') | Key::Left => if app.offset > 0 {
            let moved = app.offset - cfg.scroll_by_lines;
            (AppState { offset: (if moved < 0 { 0 } else { moved }) as usize, ..app }, cfg, Action::Redraw)
        } else {
            (previous_chapter(app).0, cfg, previous_chapter(app).1)
        },
        _ => (app, cfg, Action::Redraw),
    }
}

/// On to the next chapter's top, if there is one.
pub open spec fn next_chapter(app: AppState, chapters: int) -> (AppState, Action) {
    if app.chapter_index + 1 < chapters {
        (AppState { chapter_index: (app.chapter_index + 1) as usize, ..app }, Action::LoadChapter { at_end: false })
    } else {
        (app, Action::Redraw)
    }
}

/// Back to the previous chapter's last page, if there is one.
pub open spec fn previous_chapter(app: AppState) -> (AppState, Action) {
    if app.chapter_index > 0 {
        (AppState { chapter_index: (app.chapter_index - 1) as usize, ..app }, Action::LoadChapter { at_end: true })
    } else {
        (app, Action::Redraw)
    }
}

/// The table of contents after `key`.
pub open spec fn toc_key(key: Key, app: AppState, chapters: int) -> (AppState, Action) {
    match key {
        Key::Tab | Key::Esc | Key::Char('q') => (AppState { mode: AppMode::Reading, ..app }, Action::Redraw),
        Key::Char('j') | Key::Down => if app.toc_cursor + 1 < chapters {
            (AppState { toc_cursor: (app.toc_cursor + 1) as usize, ..app }, Action::Redraw)
        } else {
            (app, Action::Redraw)
        },
        Key::Char('k') | Key::Up => if app.toc_cursor > 0 {
            (AppState { toc_cursor: (app.toc_cursor - 1) as usize, ..app }, Action::Redraw)
        } else {
            (app, Action::Redraw)
        },
        Key::Enter => (
            AppState { chapter_index: app.toc_cursor, mode: AppMode::Reading, ..app },
            Action::LoadChapter { at_end: false },
        ),
        _ => (app, Action::Redraw),
    }
}

/// The settings menu after `key`.
pub open spec fn settings_key(key: Key, app: AppState, cfg: Config) -> (AppState, Config, Action) {
    match key {
        Key::Tab | Key::Esc | Key::Char('q') | Key::Char('s') | Key::Char('S') | Key::Enter => (
            AppState { mode: AppMode::Reading, lines_per_page: page_rows(cfg, app.term_rows) as usize, ..app },
            cfg,
            Action::SaveConfig,
        ),
        Key::Char('j') | Key::Down => (
            AppState { settings_cursor: ((app.settings_cursor + 1) % (ROW_COUNT as int)) as usize, ..app },
            cfg,
            Action::Redraw,
        ),
        Key::Char('k') | Key::Up => (
            AppState {
                settings_cursor: if app.settings_cursor == 0 { (ROW_COUNT - 1) as usize } else { (app.settings_cursor - 1) as usize },
                ..app
            },
            cfg,
            Action::Redraw,
        ),
        Key::Char('h') | Key::Left => stepped_row(app, cfg, false),
        Key::Char('l') | Key::Right => stepped_row(app, cfg, true),
        _ => (app, cfg, Action::Redraw),
    }
}

/// The setting under the cursor moved one step, laid out again if that
/// changes the text.
pub open spec fn stepped_row(app: AppState, cfg: Config, forward: bool) -> (AppState, Config, Action) {
    if app.settings_cursor < ROW_COUNT {
        let row = row_order(app.settings_cursor as int);
        (
            app,
            stepped(row, cfg, forward),
            if needs_layout(row, cfg, forward) {
                Action::Relayout { language: row == Row::Language }
            } else {
                Action::Redraw
            },
        )
    } else {
        (app, cfg, Action::Redraw)
    }
}

/// Moves through the chapter or on to another one.
pub fn handle_reading_input(key: Key, app: &mut AppState, cfg: &mut Config, lines: usize, chapters: usize) -> (r: Action)
    ensures
        (*final(app), *final(cfg), r) == reading_key(key, *old(app), *old(cfg), lines as int, chapters as int),
{
    let more = app.lines_per_page < lines && app.offset < lines - app.lines_per_page;
    match key {
        Key::Char('q') => Action::Quit,
        Key::Tab => {
            app.mode = AppMode::TocMenu;
            app.toc_cursor = app.chapter_index;
            Action::Redraw
        },
        Key::Char('S') | Key::Char('s') => {
            app.mode = AppMode::SettingsMenu;
            app.settings_cursor = 0;
            Action::Redraw
        },
        Key::Char('F') | Key::Char('f') => {
            cfg.show_footer = !cfg.show_footer;
            app.lines_per_page = page_lines(cfg, app.term_rows);
            Action::SaveConfig
        },
        Key::Char('j') | Key::Char('J') | Key::Down => {
            if more {
                app.offset = app.offset + 1;
                Action::Redraw
            } else {
                go_next(app, chapters)
            }
        },
        Key::Char('k') | Key::Char('K') | Key::Up => {
            if app.offset > 0 {
                app.offset = app.offset - 1;
                Action::Redraw
            } else {
                go_previous(app)
            }
        },
        Key::Char('l') | Key::Char('L') | Key::Right | Key::Char(' ') => {
            if more {
                let end = lines - app.lines_per_page;
                let moved = app.offset.saturating_add(cfg.scroll_by_lines);
                app.offset = if moved < end { moved } else { end };
                Action::Redraw
            } else {
                go_next(app, chapters)
            }
        },
        Key::Char('h') | Key::Char('H') | Key::Left => {
            if app.offset > 0 {
                app.offset = app.offset.saturating_sub(cfg.scroll_by_lines);
                Action::Redraw
            } else {
                go_previous(app)
            }
        },
        _ => Action::Redraw,
    }
}

fn go_next(app: &mut AppState, chapters: usize) -> (r: Action)
    ensures
        (*final(app), r) == next_chapter(*old(app), chapters as int),
{
    if app.chapter_index < chapters && app.chapter_index + 1 < chapters {
        app.chapter_index = app.chapter_index + 1;
        Action::LoadChapter { at_end: false }
    } else {
        Action::Redraw
    }
}

fn go_previous(app: &mut AppState) -> (r: Action)
    ensures
        (*final(app), r) == previous_chapter(*old(app)),
{
    if app.chapter_index > 0 {
        app.chapter_index = app.chapter_index - 1;
        Action::LoadChapter { at_end: true }
    } else {
        Action::Redraw
    }
}

/// Moves the table of contents' cursor, or opens the chosen chapter.
pub fn handle_toc_input(key: Key, app: &mut AppState, chapters: usize) -> (r: Action)
    ensures
        (*final(app), r) == toc_key(key, *old(app), chapters as int),
{
    match key {
        Key::Tab | Key::Esc | Key::Char('q') => {
            app.mode = AppMode::Reading;
            Action::Redraw
        },
        Key::Char('j') | Key::Down => {
            if app.toc_cursor < chapters && app.toc_cursor + 1 < chapters {
                app.toc_cursor = app.toc_cursor + 1;
            }
            Action::Redraw
        },
        Key::Char('k') | Key::Up => {
            if app.toc_cursor > 0 {
                app.toc_cursor = app.toc_cursor - 1;
            }
            Action::Redraw
        },
        Key::Enter => {
            app.chapter_index = app.toc_cursor;
            app.mode = AppMode::Reading;
            Action::LoadChapter { at_end: false }
        },
        _ => Action::Redraw,
    }
}

/// Moves the settings cursor or the setting under it; closing the menu
/// saves the settings.
pub fn handle_settings_input(key: Key, app: &mut AppState, cfg: &mut Config) -> (r: Action)
    ensures
        (*final(app), *final(cfg), r) == settings_key(key, *old(app), *old(cfg)),
{
    match key {
        Key::Tab | Key::Esc | Key::Char('q') | Key::Char('s') | Key::Char('S') | Key::Enter => {
            app.lines_per_page = page_lines(cfg, app.term_rows);
            app.mode = AppMode::Reading;
            Action::SaveConfig
        },
        Key::Char('j') | Key::Down => {
            let c = app.settings_cursor;
            let next = if c % ROW_COUNT + 1 == ROW_COUNT { 0 } else { c % ROW_COUNT + 1 };
            assert(next == (c + 1) % 17) by (nonlinear_arith)
                requires
                    next == (if c % 17 + 1 == 17 { 0 } else { c % 17 + 1 }),
            ;
            app.settings_cursor = next;
            Action::Redraw
        },
        Key::Char('k') | Key::Up => {
            app.settings_cursor = if app.settings_cursor == 0 {
                ROW_COUNT - 1
            } else {
                app.settings_cursor - 1
            };
            Action::Redraw
        },
        Key::Char('h') | Key::Left => step_row(app, cfg, false),
        Key::Char('l') | Key::Right => step_row(app, cfg, true),
        _ => Action::Redraw,
    }
}

fn step_row(app: &AppState, cfg: &mut Config, forward: bool) -> (r: Action)
    ensures
        (*app, *final(cfg), r) == stepped_row(*app, *old(cfg), forward),
{
    if app.settings_cursor < ROW_COUNT {
        let row = row_at(app.settings_cursor);
        if row.step(cfg, forward) {
            Action::Relayout { language: row == Row::Language }
        } else {
            Action::Redraw
        }
    } else {
        Action::Redraw
    }
}

/// Any key, in the mode the reader is in; Ctrl-C always quits.
pub fn handle_key(key: Key, ctrl: bool, app: &mut AppState, cfg: &mut Config, lines: usize, chapters: usize) -> (r: Action)
    ensures
        ctrl && key == Key::Char('c') ==> r == Action::Quit && *final(app) == *old(app) && *final(cfg) == *old(cfg),
        !(ctrl && key == Key::Char('c')) && old(app).mode == AppMode::Reading
            ==> (*final(app), *final(cfg), r) == reading_key(key, *old(app), *old(cfg), lines as int, chapters as int),
        !(ctrl && key == Key::Char('c')) && old(app).mode == AppMode::TocMenu
            ==> (*final(app), r) == toc_key(key, *old(app), chapters as int) && *final(cfg) == *old(cfg),
        !(ctrl && key == Key::Char('c')) && old(app).mode == AppMode::SettingsMenu
            ==> (*final(app), *final(cfg), r) == settings_key(key, *old(app), *old(cfg)),
{
    if ctrl && key == Key::Char('c') {
        return Action::Quit;
    }
    match app.mode {
        AppMode::Reading => handle_reading_input(key, app, cfg, lines, chapters),
        AppMode::TocMenu => handle_toc_input(key, app, chapters),
        AppMode::SettingsMenu => handle_settings_input(key, app, cfg),
    }
}

/// The window's new size: the text width and the page follow it; the
/// caller then lays the chapter out again keeping the progress.
pub fn handle_resize(cols: u16, rows: u16, app: &mut AppState, cfg: &Config)
    ensures
        *final(app) == (AppState {
            term_cols: cols,
            term_rows: rows,
            dynamic_width: text_width(*cfg, cols) as usize,
            lines_per_page: page_rows(*cfg, rows) as usize,
            ..*old(app)
        }),
{
    app.term_cols = cols;
    app.term_rows = rows;
    app.dynamic_width = text_columns(cfg, cols);
    app.lines_per_page = page_lines(cfg, rows);
}

/// The text width after a settings change, before the chapter is laid out
/// again.
pub fn update_layout_live(app: &mut AppState, cfg: &Config)
    ensures
        *final(app) == (AppState { dynamic_width: text_width(*cfg, old(app).term_cols) as usize, ..*old(app) }),
{
    app.dynamic_width = text_columns(cfg, app.term_cols);
}

/// The bookmark between turns of the loop: whether a position waits to be
/// saved after this turn, and whether to save it now. A turn with an event
/// leaves the position unsaved if it moved the reader; a pause (no event)
/// saves a position that waits, so that closing the window loses at most a
/// pause's worth of reading.
pub open spec fn bookmark_turn(unsaved: bool, event: bool, moved: bool) -> (bool, bool) {
    if event {
        (unsaved || moved, false)
    } else {
        (false, unsaved)
    }
}

/// Decides one turn of saving the bookmark (see `bookmark_turn`): returns
/// whether a position waits afterwards, and whether to save now.
pub fn bookmark_step(unsaved: bool, event: bool, moved: bool) -> (r: (bool, bool))
    ensures
        r == bookmark_turn(unsaved, event, moved),
{
    if event {
        (unsaved || moved, false)
    } else {
        (false, unsaved)
    }
}

/// Rewinding moves back by one chunk: inside a chapter, h, H and Left take
/// the offset back by `scroll_by_lines`, stopping at the chapter's top, and
/// change nothing else.
pub proof fn law_rewind_by_a_chunk(key: Key, app: AppState, cfg: Config, lines: int, chapters: int)
    requires
        key == Key::Left || key == Key::Char('h') || key == Key::Char('H'),
        app.offset > 0,
    ensures
        ({
            let (next, c, action) = reading_key(key, app, cfg, lines, chapters);
            &&& action == Action::Redraw
            &&& c == cfg
            &&& next.offset + cfg.scroll_by_lines >= app.offset
            &&& next.offset <= app.offset
            &&& (next.offset == 0 || next.offset + cfg.scroll_by_lines == app.offset)
            &&& (app.offset >= cfg.scroll_by_lines ==> next.offset + cfg.scroll_by_lines == app.offset)
            &&& (app.offset < cfg.scroll_by_lines ==> next.offset == 0)
            &&& next == AppState { offset: next.offset, ..app }
        }),
{
}

/// A chunk forward then a chunk back comes back to the same line, when the
/// chunk forward stays clear of the chapter's last page.
pub proof fn law_page_forward_back(app: AppState, cfg: Config, lines: usize, chapters: int)
    requires
        more_below(app, lines as int),
        app.offset + cfg.scroll_by_lines < lines - app.lines_per_page,
        cfg.scroll_by_lines > 0,
    ensures
        ({
            let fwd = reading_key(Key::Right, app, cfg, lines as int, chapters);
            &&& fwd.0.offset == app.offset + cfg.scroll_by_lines
            &&& reading_key(Key::Left, fwd.0, fwd.1, lines as int, chapters).0 == app
        }),
{
}

/// Opening the table of contents and closing it again leaves the reader
/// where it was.
pub proof fn law_toc_round_trip(app: AppState, cfg: Config, lines: int, chapters: int)
    requires
        app.mode == AppMode::Reading,
    ensures
        ({
            let opened = reading_key(Key::Tab, app, cfg, lines, chapters).0;
            &&& opened.mode == AppMode::TocMenu
            &&& opened.toc_cursor == app.chapter_index
            &&& toc_key(Key::Tab, opened, chapters).0 == AppState { toc_cursor: app.chapter_index, ..app }
        }),
{
}

/// A line down then a line up, in the middle of a chapter, comes back to
/// the same line.
pub proof fn law_line_down_up(app: AppState, cfg: Config, lines: usize, chapters: usize)
    requires
        more_below(app, lines as int),
    ensures
        ({
            let down = reading_key(Key::Down, app, cfg, lines as int, chapters as int);
            &&& down.2 == Action::Redraw
            &&& reading_key(Key::Up, down.0, down.1, lines as int, chapters as int).0 == app
        }),
{
}

/// Scrolling within a chapter never leaves it: an offset inside the text
/// stays inside whenever the page has room for a line.
pub proof fn law_scroll_stays_in_chapter(key: Key, app: AppState, cfg: Config, lines: usize, chapters: usize)
    requires
        app.offset < lines,
        app.lines_per_page > 0,
    ensures
        reading_key(key, app, cfg, lines as int, chapters as int).2 == Action::Redraw
            ==> reading_key(key, app, cfg, lines as int, chapters as int).0.offset < lines,
{
}

/// The settings cursor stays on a row, whatever key comes.
pub proof fn law_settings_cursor_in_menu(key: Key, app: AppState, cfg: Config)
    requires
        app.settings_cursor < ROW_COUNT,
    ensures
        settings_key(key, app, cfg).0.settings_cursor < ROW_COUNT,
{
}

/// Down then up in the settings menu returns to the same row.
pub proof fn law_settings_down_up(app: AppState, cfg: Config)
    requires
        app.settings_cursor < ROW_COUNT,
    ensures
        settings_key(Key::Up, settings_key(Key::Down, app, cfg).0, cfg).0 == app,
{
}

/// Toggling the footer twice gives back the settings and the page as they
/// were, and each toggle asks for the settings to be saved.
pub proof fn law_footer_toggle_twice(app: AppState, cfg: Config, lines: int, chapters: int)
    requires
        app.lines_per_page == page_rows(cfg, app.term_rows),
    ensures
        ({
            let once = reading_key(Key::Char('f'), app, cfg, lines, chapters);
            let twice = reading_key(Key::Char('f'), once.0, once.1, lines, chapters);
            &&& once.1.show_footer == !cfg.show_footer
            &&& once.2 == Action::SaveConfig
            &&& twice.0 == app
            &&& twice.1 == cfg
        }),
{
}

} // verus!
