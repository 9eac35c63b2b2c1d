use moosereader::epub::{decode_entities, format_html_for_terminal, strip_ansi};

/// Visible text lines of formatted HTML, without styling or blank lines.
fn text_lines(html: &str) -> Vec<String> {
    strip_ansi(&format_html_for_terminal(html).replace('\x1e', ""))
        .lines()
        .map(|l| l.trim().to_string())
        .filter(|l| !l.is_empty())
        .collect()
}

#[test]
fn self_closing_anchor_does_not_underline() {
    let out = format_html_for_terminal(r#"<p><a id="c05"/></p><div>Text</div>"#);
    assert!(!out.contains("\x1b[4m"), "{:?}", out);
}

#[test]
fn source_line_breaks_are_spaces() {
    assert_eq!(text_lines("<p>Hello\n    world</p>"), ["Hello world"]);
}

#[test]
fn list_items_get_their_own_lines() {
    let html = "<ul>\n  <li>\n    One\n  </li>\n  <li>Two</li>\n</ul>";
    assert_eq!(text_lines(html), ["• One", "• Two"]);
    let html = "<ol><li>First</li><li>Second</li></ol>";
    assert_eq!(text_lines(html), ["1. First", "2. Second"]);
}

#[test]
fn minor_headings_are_bold_lines() {
    let out = format_html_for_terminal("text<h4>Notes</h4>more");
    assert!(out.contains("\n\x1b[1mNotes\x1b[22m\n"), "{:?}", out);
}

#[test]
fn pre_keeps_line_breaks() {
    assert_eq!(text_lines("<pre>a\nb</pre>"), ["a", "b"]);
}

#[test]
fn entities_decode_once() {
    assert_eq!(decode_entities("don&#8217;t &#x2014; &rsquo;"), "don’t — ’");
    assert_eq!(decode_entities("&amp;lt;"), "&lt;");
    assert_eq!(
        decode_entities("AT&T &unknown; &#xZZ; &"),
        "AT&T &unknown; &#xZZ; &"
    );
    assert_eq!(decode_entities("a&nbsp;b"), "a\u{a0}b");
}

#[test]
fn plain_text_is_left_alone() {
    assert_eq!(decode_entities("no references here; none at all"), "no references here; none at all");
    let stripped = strip_ansi("\x1b[1mbold\x1b[22m and \x1b[4munderlined\x1b[24m");
    assert_eq!(stripped, "bold and underlined");
    assert!(!stripped.contains('\x1b'));
}
