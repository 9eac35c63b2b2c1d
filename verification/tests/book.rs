use moosereader::book::{
    get_epub_spine, load_chapter, navigation_titles, open_book, package_path, reading_order, toc_path, BookError, XmlAttribute,
    XmlNode,
};
use moosereader::i18n::Language;
use std::io::{Cursor, Write};

/// An archive holding the given files.
fn archive(files: &[(&str, &[u8])]) -> Vec<u8> {
    let mut zip = zip::ZipWriter::new(Cursor::new(Vec::new()));
    for (name, body) in files {
        zip.start_file(*name, zip::write::SimpleFileOptions::default())
            .unwrap();
        zip.write_all(body).unwrap();
    }
    zip.finish().unwrap().into_inner()
}

/// A complete EPUB 2 book, one chapter per (title, body HTML).
fn book(chapters: &[(&str, &str)]) -> Vec<u8> {
    let mut manifest = String::from(r#"<item id="ncx" href="toc.ncx" media-type="application/x-dtbncx+xml"/>"#);
    let (mut spine, mut nav) = (String::new(), String::new());
    let mut files: Vec<(String, Vec<u8>)> = vec![(
        "META-INF/container.xml".into(),
        br#"<?xml version="1.0"?><container xmlns="urn:oasis:names:tc:opendocument:xmlns:container"><rootfiles><rootfile full-path="OEBPS/content.opf"/></rootfiles></container>"#.to_vec(),
    )];
    for (n, (title, body)) in chapters.iter().enumerate() {
        manifest += &format!(r#"<item id="c{n}" href="c{n}.html" media-type="application/xhtml+xml"/>"#);
        spine += &format!(r#"<itemref idref="c{n}"/>"#);
        nav += &format!(
            r#"<navPoint id="p{n}"><navLabel><text>{title}</text></navLabel><content src="c{n}.html#top"/></navPoint>"#
        );
        let html = format!("<html><head></head><body>{body}</body></html>");
        files.push((format!("OEBPS/c{n}.html"), html.into_bytes()));
    }
    let opf = format!(
        r#"<package xmlns="http://www.idpf.org/2007/opf"><manifest>{manifest}</manifest><spine toc="ncx">{spine}</spine></package>"#
    );
    let ncx = format!(r#"<ncx xmlns="http://www.daisy.org/z3986/2005/ncx/"><navMap>{nav}</navMap></ncx>"#);
    files.push(("OEBPS/content.opf".into(), opf.into_bytes()));
    files.push(("OEBPS/toc.ncx".into(), ncx.into_bytes()));
    let named: Vec<(&str, &[u8])> = files.iter().map(|(n, b)| (n.as_str(), b.as_slice())).collect();
    archive(&named)
}

#[test]
fn the_spine_lists_chapters_with_their_titles() {
    let bytes = book(&[("One", "<p>a</p>"), ("  Two  ", "<p>b</p>")]);
    let spine = get_epub_spine(&bytes).unwrap();
    assert_eq!(
        spine,
        [
            ("OEBPS/c0.html".to_string(), "One".to_string()),
            ("OEBPS/c1.html".to_string(), "Two".to_string())
        ]
    );
}

#[test]
fn chapters_without_a_title_are_sections() {
    let opf = r#"<package><manifest><item id="a" href="a.html"/></manifest><spine><itemref idref="a"/><itemref idref="missing"/></spine></package>"#;
    let bytes = archive(&[
        ("META-INF/container.xml", br#"<container><rootfiles><rootfile full-path="content.opf"/></rootfiles></container>"#),
        ("content.opf", opf.as_bytes()),
    ]);
    assert_eq!(get_epub_spine(&bytes).unwrap(), [("a.html".to_string(), "Section".to_string())]);
}

#[test]
fn what_is_not_a_book_is_told_apart() {
    assert_eq!(open_book(b"plain text").unwrap_err(), BookError::NotZip);
    let other = archive(&[("hello.txt", b"hi")]);
    assert_eq!(open_book(&other).unwrap_err(), BookError::NotEpub);
    let empty = archive(&[
        ("META-INF/container.xml", br#"<container><rootfile full-path="c.opf"/></container>"#),
        ("c.opf", b"<package><spine/></package>"),
    ]);
    assert_eq!(open_book(&empty).unwrap_err(), BookError::NoChapters);
    assert_eq!(open_book(&book(&[("One", "<p>a</p>")])).unwrap().len(), 1);
}

#[test]
fn chapters_are_wrapped_after_the_margin() {
    let bytes = book(&[("One", "<p>alpha beta gamma delta</p><p></p><p></p><p>epsilon</p>")]);
    let lines = load_chapter(&bytes, "OEBPS/c0.html", 12, 2);
    assert_eq!(lines, ["  alpha beta", "  gamma delta", "", "  epsilon"]);
    assert!(load_chapter(&bytes, "OEBPS/missing.html", 12, 2).is_empty());
}

/// An element node named `name` with plain attributes, its text and the
/// size of its subtree.
fn node(name: &str, attributes: &[(&str, &str)], text: Option<&str>, size: usize) -> XmlNode {
    XmlNode {
        name: name.to_string(),
        attributes: attributes
            .iter()
            .map(|(n, v)| XmlAttribute { namespace: None, name: n.to_string(), value: v.to_string() })
            .collect(),
        text: text.map(|t| t.to_string()),
        size,
    }
}

#[test]
fn the_container_names_the_package() {
    let nodes = vec![
        node("container", &[], None, 3),
        node("rootfiles", &[], None, 2),
        node("rootfile", &[("full-path", "OPS/book.opf")], None, 1),
    ];
    assert_eq!(package_path(&nodes), Some("OPS/book.opf".to_string()));
    let without = vec![node("container", &[], None, 1)];
    assert_eq!(package_path(&without), None);
    let mut namespaced = node("rootfile", &[], None, 1);
    namespaced.attributes.push(XmlAttribute {
        namespace: Some("urn:x".to_string()),
        name: "full-path".to_string(),
        value: "a.opf".to_string(),
    });
    assert_eq!(package_path(&vec![namespaced]), None);
}

/// The nodes of a package with a manifest of two chapters and a table of
/// contents, and a spine listing them (and an unknown id).
fn package_nodes() -> Vec<XmlNode> {
    vec![
        node("package", &[], None, 9),
        node("manifest", &[], None, 4),
        node("item", &[("id", "ncx"), ("href", "nav/toc.ncx")], None, 1),
        node("item", &[("id", "a"), ("href", "text/a.html")], None, 1),
        node("item", &[("id", "b"), ("href", "text/b.html")], None, 1),
        node("spine", &[("toc", "ncx")], None, 4),
        node("itemref", &[("idref", "b")], None, 1),
        node("itemref", &[("idref", "zz")], None, 1),
        node("itemref", &[("idref", "a")], None, 1),
    ]
}

#[test]
fn the_table_of_contents_lies_beside_the_package() {
    assert_eq!(toc_path("OPS/content.opf", &package_nodes()), Some("OPS/nav/toc.ncx".to_string()));
    assert_eq!(toc_path("content.opf", &package_nodes()), Some("nav/toc.ncx".to_string()));
    let mut no_toc = package_nodes();
    no_toc[5].attributes.clear();
    assert_eq!(toc_path("content.opf", &no_toc), None);
}

#[test]
fn navigation_points_give_targets_and_titles() {
    let ncx = vec![
        node("ncx", &[], None, 9),
        node("navMap", &[], None, 8),
        node("navPoint", &[], None, 4),
        node("navLabel", &[], None, 2),
        node("text", &[], Some("  First  "), 1),
        node("content", &[("src", "text/a.html#start")], None, 1),
        node("navPoint", &[], None, 3),
        node("navLabel", &[], None, 1),
        node("content", &[("src", "text/b.html")], None, 1),
    ];
    assert_eq!(navigation_titles(&ncx), [("text/a.html".to_string(), "First".to_string())]);
}

#[test]
fn the_spine_orders_the_chapters() {
    let titles = vec![("text/a.html".to_string(), "Alpha".to_string())];
    assert_eq!(
        reading_order("OPS/content.opf", &package_nodes(), &titles),
        Some(vec![
            ("OPS/text/b.html".to_string(), "Section".to_string()),
            ("OPS/text/a.html".to_string(), "Alpha".to_string())
        ])
    );
    let no_spine: Vec<XmlNode> = package_nodes().into_iter().take(5).collect();
    assert_eq!(reading_order("OPS/content.opf", &no_spine, &titles), None);
}

#[test]
fn errors_are_told_in_the_interface_language() {
    assert_eq!(
        BookError::NotZip.message(Language::English, "fake.epub"),
        "fake.epub is not an EPUB (not a zip archive)"
    );
    assert_eq!(
        BookError::NotEpub.message(Language::Auto, "other.epub"),
        "other.epub is not a readable EPUB (no package or spine)"
    );
    assert_eq!(BookError::NoChapters.message(Language::English, "b.epub"), "no chapters found in b.epub");
    assert!(BookError::NotZip.message(Language::Japanese, "x.epub").starts_with("x.epub は EPUB"));
}

#[test]
fn blank_runs_collapse_to_one_line() {
    let bytes = book(&[("One", "<p></p><br/><p>alpha</p><p></p><p></p><br/><p>beta</p><p></p>")]);
    let lines = load_chapter(&bytes, "OEBPS/c0.html", 20, 1);
    assert_eq!(lines, [" alpha", "", " beta"]);
}

#[test]
fn blank_runs_collapse_without_a_margin() {
    let bytes = book(&[("One", "<p></p><p>alpha</p><p></p><br/><p></p><p>beta</p><p></p>")]);
    let lines = load_chapter(&bytes, "OEBPS/c0.html", 20, 0);
    assert_eq!(lines, ["alpha", "", "beta"]);
}
