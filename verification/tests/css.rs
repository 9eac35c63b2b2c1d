use moosereader::css::{Align, Computed, Stylesheet};

fn style(sheet: &Stylesheet, tag: &str, class: &str, inline: &str) -> Computed {
    sheet.compute(&Computed::default(), tag, class, inline)
}

#[test]
fn reader_defaults_cover_the_html_tags() {
    let sheet = Stylesheet::new();
    assert!(style(&sheet, "b", "", "").bold);
    assert!(style(&sheet, "em", "", "").italic);
    assert_eq!(style(&sheet, "h2", "", "").align, Align::Center);
    assert_eq!(style(&sheet, "h5", "", "").align, Align::Left);
    assert_eq!(style(&sheet, "p", "", ""), Computed::default());
}

#[test]
fn book_rules_by_class_and_tag() {
    let mut sheet = Stylesheet::new();
    sheet.add(
        r#"@charset "UTF-8";
        /* comment { with braces } */
        .calibre5 { font-style: italic }
        .calibre3, p.center { text-align: center; text-indent: 0 }
        .bold { font-weight: 700 !important }
        .tx { text-indent: 1.2em }
        .hang { text-indent: -1em }
        .sc { font-variant: small-caps }
        @media amzn-kf8 { .calibre5 { font-style: normal } }
        div p.x { font-weight: bold }
        a:hover { text-decoration: underline }
        i.plain { font-style: normal }"#,
    );
    assert!(style(&sheet, "span", "calibre5", "").italic);
    assert!(
        style(&sheet, "span", "calibre5 other", "").italic,
        "@media rules are skipped"
    );
    assert_eq!(style(&sheet, "div", "calibre3", "").align, Align::Center);
    assert_eq!(style(&sheet, "p", "center", "").align, Align::Center);
    assert_eq!(
        style(&sheet, "div", "center", "").align,
        Align::Left,
        "p.center needs a p"
    );
    assert!(style(&sheet, "span", "bold", "").bold);
    assert!(style(&sheet, "p", "tx", "").indent);
    assert!(!style(&sheet, "p", "hang", "").indent);
    assert!(style(&sheet, "span", "sc", "").small_caps);
    assert!(
        !style(&sheet, "p", "x", "").bold,
        "descendant selectors are skipped"
    );
    // The book's i.plain beats the reader's i, and inline style beats both
    assert!(!style(&sheet, "i", "plain", "").italic);
    assert!(style(&sheet, "i", "plain", "font-style: italic").italic);
    assert!(style(&sheet, "span", "", "font: italic bold 1em serif").bold);
}

#[test]
fn styles_inherit_unless_overridden() {
    let mut sheet = Stylesheet::new();
    sheet.add(".it { font-style: italic } .c { text-align: center } .n { font-style: normal }");
    let outer = style(&sheet, "div", "it c", "");
    let inner = sheet.compute(&outer, "span", "", "");
    assert!(inner.italic && inner.align == Align::Center);
    assert!(!sheet.compute(&outer, "span", "n", "").italic);
}

#[test]
fn weights_decorations_and_letter_case() {
    let mut sheet = Stylesheet::new();
    sheet.add(
        ".m { font-weight: 500 } .h { FONT-WEIGHT: 600 } .u { text-decoration: underline }
         .n { text-decoration: none } .i { Font-Style: Italic }",
    );
    assert!(!style(&sheet, "span", "m", "").bold);
    assert!(style(&sheet, "span", "h", "").bold);
    let underlined = style(&sheet, "span", "u", "");
    assert!(underlined.underline);
    assert!(!sheet.compute(&underlined, "span", "n", "").underline);
    assert!(style(&sheet, "span", "i", "").italic);
}

#[test]
fn more_classes_beat_fewer_whatever_the_order() {
    let mut sheet = Stylesheet::new();
    sheet.add(".a.b { font-style: italic } .a { font-style: normal }");
    assert!(style(&sheet, "p", "a b", "").italic);
    assert!(!style(&sheet, "p", "a", "").italic);
    assert!(
        !style(&sheet, "p", "b", "").italic,
        ".a.b needs both classes"
    );
}

#[test]
fn the_plain_sheet_ignores_style_attributes() {
    let sheet = Stylesheet::plain();
    assert!(!style(&sheet, "span", "", "font-style: italic").italic);
    assert!(style(&sheet, "i", "", "").italic);
}

#[test]
fn broken_css_keeps_the_rules_before_it() {
    let mut sheet = Stylesheet::new();
    sheet.add(".ok { font-weight: bold } .broken { font-style: italic ");
    sheet.add("no braces at all");
    assert!(style(&sheet, "span", "ok", "").bold);
    assert!(!style(&sheet, "span", "broken", "").italic);
}

#[test]
fn the_book_beats_the_reader_whatever_the_specificity() {
    let mut sheet = Stylesheet::new();
    sheet.add(".light { font-weight: normal }");
    // The reader's b is bold, the book's class says otherwise
    assert!(!style(&sheet, "b", "light", "").bold);
    assert!(style(&sheet, "b", "", "").bold);
    // A style attribute beats the book's rules
    assert!(style(&sheet, "b", "light", "font-weight: bold").bold);
}
