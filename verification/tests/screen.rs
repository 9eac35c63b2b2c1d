use moosereader::screen::{paragraphs, Screen};

#[test]
fn replayed_text_lands_where_the_cursor_goes() {
    let s = Screen::replay(10, 3, b"ab\x1b[2;3Hcd\r\nx");
    assert_eq!(s.rows(), 3);
    assert_eq!(s.row(0), "ab");
    assert_eq!(s.row(1), "  cd");
    assert_eq!(s.row(2), "x");
    assert_eq!(s.text(), "ab\n  cd\nx");
    assert!(!s.overflowed);
}

#[test]
fn colors_are_skipped_and_lines_erased() {
    let s = Screen::replay(8, 2, b"\x1b[38;2;1;2;3mhello\x1b[1;3H\x1b[K\x1b[2;1Hworld\x1b[2K");
    assert_eq!(s.row(0), "he");
    assert_eq!(s.row(1), "");
}

#[test]
fn wide_characters_fill_two_cells() {
    let s = Screen::replay(6, 1, "地铁x".as_bytes());
    assert_eq!(s.row(0), "地铁x");
    assert_eq!(s.last_column_of(0, 'x'), Some(4));
    assert_eq!(s.last_column_of(0, '地'), Some(0));
    assert_eq!(s.last_column_of(0, 'z'), None);
    let narrow = Screen::replay(3, 1, "地铁".as_bytes());
    assert!(narrow.overflowed);
    assert_eq!(narrow.row(0), "地");
}

#[test]
fn kitty_commands_are_collected() {
    let s = Screen::replay(4, 1, b"\x1b_Ga=d,d=a,q=2\x1b\\\x1b]8;;http://x\x07a\x1b_Gm=0;AAAA");
    assert_eq!(s.kitty, ["Ga=d,d=a,q=2", "Gm=0;AAAA"]);
    assert_eq!(s.row(0), "a");
}

#[test]
fn filler_paragraphs_are_numbered() {
    assert_eq!(paragraphs(2, 3), "<p>p0w0 p0w1 p0w2</p><p>p1w0 p1w1 p1w2</p>");
    assert_eq!(paragraphs(0, 3), "");
    assert_eq!(paragraphs(1, 0), "<p></p>");
}

#[test]
fn text_replays_as_its_bytes_do() {
    let s = Screen::replay_text(5, 2, "x\x1b[2;2Hy\x1b_Gi=1\x1b\\");
    assert_eq!(s.row(0), "x");
    assert_eq!(s.row(1), " y");
    assert_eq!(s.kitty, ["Gi=1"]);
}
