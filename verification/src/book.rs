//! An EPUB book read from the bytes of its archive: the reading order of
//! its chapters with their titles, and each chapter laid out as lines of
//! terminal text.

use vstd::prelude::*;
use crate::epub::{format_html_for_terminal, formatted, strip_ansi, without_ansi};
use crate::i18n::{fill, filled, tr, translation, Language, Text};
use crate::text::{chars_of, eq_chars, eq_str, push_all, push_str, remove_all, remove_all_of, slice, split, split_at_char, string_of, trim, trimmed, views, lemma_split_nonempty};

verus! {

// ------------------------------------------------------------ the archive

/// What a zip archive holds under `name`, read as text (`ZipArchive::by_name`
/// and `Read::read_to_string`); none when the archive, the entry or its
/// UTF-8 cannot be read.
pub uninterp spec fn zip_text(archive: Seq<u8>, name: Seq<char>) -> Option<Seq<char>>;

/// Whether `zip` reads the bytes as an archive (`ZipArchive::new`).
pub uninterp spec fn zip_archive(archive: Seq<u8>) -> bool;

pub open spec fn opt_text(v: Option<String>) -> Option<Seq<char>> {
    match v {
        Some(s) => Some(s@),
        None => None,
    }
}

/// The text of an entry of the archive (`zip`'s `ZipArchive::new`,
/// `by_name`, then `read_to_string`). The contract claims only that the
/// result is `zip_text` of the archive and the name: the same bytes and
/// name give the same text.
#[verifier::external_body]
pub(crate) fn read_zip_file(archive: &[u8], name: &str) -> (r: Option<String>)
    ensures
        opt_text(r) == zip_text(archive@, name@),
{
    let mut zip = zip::ZipArchive::new(std::io::Cursor::new(archive)).ok()?;
    let mut file = zip.by_name(name).ok()?;
    let mut content = String::new();
    std::io::Read::read_to_string(&mut file, &mut content).ok()?;
    Some(content)
}

/// Whether the bytes are a zip archive (`zip::ZipArchive::new`); the
/// contract names the answer `zip_archive` and claims nothing more.
#[verifier::external_body]
fn is_zip(archive: &[u8]) -> (r: bool)
    ensures
        r == zip_archive(archive@),
{
    zip::ZipArchive::new(std::io::Cursor::new(archive)).is_ok()
}

// ------------------------------------------------------------ XML

/// An attribute: its namespace, if any, its local name and its value.
pub struct XmlAttribute {
    pub namespace: Option<String>,
    pub name: String,
    pub value: String,
}

/// One node of an XML document, in document order: its local name (empty
/// for a node that is not an element), its attributes, its text (for an
/// element, that of a first child that is text) and how many nodes its
/// subtree holds, itself included.
pub struct XmlNode {
    pub name: String,
    pub attributes: Vec<XmlAttribute>,
    pub text: Option<String>,
    pub size: usize,
}

pub struct AttributeView {
    pub namespace: Option<Seq<char>>,
    pub name: Seq<char>,
    pub value: Seq<char>,
}

pub struct NodeView {
    pub name: Seq<char>,
    pub attributes: Seq<AttributeView>,
    pub text: Option<Seq<char>>,
    pub size: nat,
}

pub open spec fn attribute_view(a: XmlAttribute) -> AttributeView {
    AttributeView { namespace: opt_text(a.namespace), name: a.name@, value: a.value@ }
}

pub open spec fn node_view(n: XmlNode) -> NodeView {
    NodeView {
        name: n.name@,
        attributes: n.attributes@.map_values(|a: XmlAttribute| attribute_view(a)),
        text: opt_text(n.text),
        size: n.size as nat,
    }
}

pub open spec fn nodes_view(v: Seq<XmlNode>) -> Seq<NodeView> {
    v.map_values(|n: XmlNode| node_view(n))
}

pub open spec fn opt_nodes(v: Option<Vec<XmlNode>>) -> Option<Seq<NodeView>> {
    match v {
        Some(n) => Some(nodes_view(n@)),
        None => None,
    }
}

/// The nodes `roxmltree` reads from an XML text, in document order from the
/// document's root; none when the text is not well-formed XML.
pub uninterp spec fn xml_nodes(text: Seq<char>) -> Option<Seq<NodeView>>;

/// Parses XML with `roxmltree::Document::parse` and lists its nodes, from
/// the root, in the order `descendants` gives them. The contract names the
/// list `xml_nodes` of the text; what roxmltree accepts as XML, and how it
/// resolves names and text, is left to the crate.
#[verifier::external_body]
fn parse_xml(text: &str) -> (r: Option<Vec<XmlNode>>)
    ensures
        opt_nodes(r) == xml_nodes(text@),
{
    let doc = roxmltree::Document::parse(text).ok()?;
    Some(doc.descendants().map(|n| XmlNode {
        name: n.tag_name().name().to_string(),
        attributes: n.attributes().map(|a| XmlAttribute {
            namespace: a.namespace().map(|s| s.to_string()),
            name: a.name().to_string(),
            value: a.value().to_string(),
        }).collect(),
        text: n.text().map(|s| s.to_string()),
        size: n.descendants().count(),
    }).collect())
}

/// The first node from `i` on, before `end`, named `name`.
pub open spec fn first_named(nodes: Seq<NodeView>, name: Seq<char>, i: int, end: int) -> Option<int>
    decreases end - i,
{
    if i < 0 || i >= end || i >= nodes.len() {
        None
    } else if nodes[i].name == name {
        Some(i)
    } else {
        first_named(nodes, name, i + 1, end)
    }
}

/// Where the subtree of node `i` ends.
pub open spec fn subtree_end(nodes: Seq<NodeView>, i: int) -> int {
    i + nodes[i].size
}

/// The value of the first attribute from `k` on named `name` with no namespace.
pub open spec fn attribute_from(attrs: Seq<AttributeView>, name: Seq<char>, k: int) -> Option<Seq<char>>
    decreases attrs.len() - k,
{
    if k < 0 || k >= attrs.len() {
        None
    } else if attrs[k].namespace.is_none() && attrs[k].name == name {
        Some(attrs[k].value)
    } else {
        attribute_from(attrs, name, k + 1)
    }
}

/// A node's attribute `name`, as `Node::attribute` finds it.
pub open spec fn attribute(node: NodeView, name: Seq<char>) -> Option<Seq<char>> {
    attribute_from(node.attributes, name, 0)
}

proof fn lemma_first_named(nodes: Seq<NodeView>, name: Seq<char>, i: int, end: int)
    ensures
        first_named(nodes, name, i, end) matches Some(j) ==> 0 <= i <= j && j < end && j < nodes.len() && nodes[j].name == name,
    decreases end - i,
{
    if !(i < 0 || i >= end || i >= nodes.len()) && nodes[i].name != name {
        lemma_first_named(nodes, name, i + 1, end);
    }
}

fn find_named(nodes: &Vec<XmlNode>, name: &str, from: usize, end: usize) -> (r: Option<usize>)
    ensures
        match r {
            Some(j) => first_named(nodes_view(nodes@), name@, from as int, end as int) == Some(j as int) && j < nodes@.len(),
            None => first_named(nodes_view(nodes@), name@, from as int, end as int).is_none(),
        },
{
    let ghost v = nodes_view(nodes@);
    let mut i = from;
    while i < end && i < nodes.len()
        invariant
            from <= i,
            v == nodes_view(nodes@),
            first_named(v, name@, from as int, end as int) == first_named(v, name@, i as int, end as int),
        decreases end - i,
    {
        let n = chars_of(nodes[i].name.as_str());
        assert(v[i as int].name == nodes@[i as int].name@);
        if eq_str(&n, name) {
            return Some(i);
        }
        i += 1;
    }
    None
}

fn attribute_of(node: &XmlNode, name: &str) -> (r: Option<String>)
    ensures
        opt_text(r) == attribute(node_view(*node), name@),
{
    let ghost attrs = node_view(*node).attributes;
    let mut k: usize = 0;
    while k < node.attributes.len()
        invariant
            k <= node.attributes@.len(),
            attrs == node_view(*node).attributes,
            attrs.len() == node.attributes@.len(),
            attribute(node_view(*node), name@) == attribute_from(attrs, name@, k as int),
        decreases node.attributes.len() - k,
    {
        let a = &node.attributes[k];
        assert(attrs[k as int] == attribute_view(node.attributes@[k as int]));
        let n = chars_of(a.name.as_str());
        if a.namespace.is_none() && eq_str(&n, name) {
            return Some(string_of(&chars_of(a.value.as_str())));
        }
        k += 1;
    }
    None
}

// ------------------------------------------------------------ the package

/// The last value kept under `key` (a map where later entries replace earlier ones).
pub open spec fn lookup(pairs: Seq<(Seq<char>, Seq<char>)>, key: Seq<char>) -> Option<Seq<char>>
    decreases pairs.len(),
{
    if pairs.len() == 0 {
        None
    } else if pairs.last().0 == key {
        Some(pairs.last().1)
    } else {
        lookup(pairs.drop_last(), key)
    }
}

/// The manifest: each item's id and href, in document order, for the items
/// that have both.
pub open spec fn manifest(nodes: Seq<NodeView>) -> Seq<(Seq<char>, Seq<char>)>
    decreases nodes.len(),
{
    if nodes.len() == 0 {
        Seq::empty()
    } else {
        let n = nodes.last();
        let rest = manifest(nodes.drop_last());
        if n.name == "item"@ && attribute(n, "id"@).is_some() && attribute(n, "href"@).is_some() {
            rest.push((attribute(n, "id"@).unwrap(), attribute(n, "href"@).unwrap()))
        } else {
            rest
        }
    }
}

/// A path relative to the package file, made a path in the archive: the
/// package file's folder, a `/`, then the path.
pub open spec fn beside(package: Seq<char>, rel: Seq<char>) -> Seq<char> {
    if package.contains('/') {
        let parts = split(package, '/');
        package.take(package.len() - parts.last().len() - 1) + seq!['/'] + rel
    } else {
        rel
    }
}

/// The part of a link before its first `#`.
pub open spec fn before_hash(src: Seq<char>) -> Seq<char> {
    split(src, '#')[0]
}

/// A navigation point's link target and its title, if it has both.
pub open spec fn nav_entry(nodes: Seq<NodeView>, i: int) -> Option<(Seq<char>, Seq<char>)> {
    let end = subtree_end(nodes, i);
    match (first_named(nodes, "text"@, i, end), first_named(nodes, "content"@, i, end)) {
        (Some(t), Some(c)) => match (nodes[t].text, attribute(nodes[c], "src"@)) {
            (Some(text), Some(src)) => Some((before_hash(src), trim(text))),
            _ => None,
        },
        _ => None,
    }
}

/// The titles of the table of contents (NCX): each navigation point's
/// target, without its fragment, and its trimmed title, in document order.
pub open spec fn nav_titles(nodes: Seq<NodeView>, n: int) -> Seq<(Seq<char>, Seq<char>)>
    decreases n,
{
    if n <= 0 {
        Seq::empty()
    } else {
        let rest = nav_titles(nodes, n - 1);
        if n - 1 < nodes.len() && nodes[n - 1].name == "navPoint"@ && nav_entry(nodes, n - 1).is_some() {
            rest.push(nav_entry(nodes, n - 1).unwrap())
        } else {
            rest
        }
    }
}

/// Where the table of contents (NCX) is, in the archive: the manifest
/// entry that the spine names with its `toc` attribute, beside the package
/// file `package`.
pub open spec fn toc_target(package: Seq<char>, nodes: Seq<NodeView>) -> Option<Seq<char>> {
    match first_named(nodes, "spine"@, 0, nodes.len() as int) {
        Some(s) => match attribute(nodes[s], "toc"@) {
            Some(id) => match lookup(manifest(nodes), id) {
                Some(href) => Some(beside(package, href)),
                None => None,
            },
            None => None,
        },
        None => None,
    }
}

/// The titles of the table of contents at `target` in the archive, if
/// there is one that can be read.
pub open spec fn ncx_titles(archive: Seq<u8>, target: Option<Seq<char>>) -> Seq<(Seq<char>, Seq<char>)> {
    match target {
        Some(path) => match zip_text(archive, path) {
            Some(xml) => match xml_nodes(xml) {
                Some(ncx) => nav_titles(ncx, ncx.len() as int),
                None => Seq::empty(),
            },
            None => Seq::empty(),
        },
        None => Seq::empty(),
    }
}

/// The chapter an itemref names: its path in the archive and its title
/// ("Section" where the table of contents has none).
pub open spec fn spine_entry(
    nodes: Seq<NodeView>,
    k: int,
    items: Seq<(Seq<char>, Seq<char>)>,
    titles: Seq<(Seq<char>, Seq<char>)>,
    package: Seq<char>,
) -> Option<(Seq<char>, Seq<char>)> {
    match attribute(nodes[k], "idref"@) {
        Some(idref) => match lookup(items, idref) {
            Some(href) => Some((
                beside(package, href),
                match lookup(titles, href) {
                    Some(t) => t,
                    None => "Section"@,
                },
            )),
            None => None,
        },
        None => None,
    }
}

/// The chapters the spine's itemrefs name, from node `from` up to `to`.
pub open spec fn spine_entries(
    nodes: Seq<NodeView>,
    from: int,
    to: int,
    items: Seq<(Seq<char>, Seq<char>)>,
    titles: Seq<(Seq<char>, Seq<char>)>,
    package: Seq<char>,
) -> Seq<(Seq<char>, Seq<char>)>
    decreases to - from,
{
    if to <= from {
        Seq::empty()
    } else {
        let rest = spine_entries(nodes, from, to - 1, items, titles, package);
        let k = to - 1;
        if k < nodes.len() && nodes[k].name == "itemref"@ && spine_entry(nodes, k, items, titles, package).is_some() {
            rest.push(spine_entry(nodes, k, items, titles, package).unwrap())
        } else {
            rest
        }
    }
}

/// The reading order of the package file `package`, whose nodes are
/// `nodes`, titled from `titles`: the chapters its spine's itemrefs name;
/// none when it has no spine.
pub open spec fn reading_order_of(package: Seq<char>, nodes: Seq<NodeView>, titles: Seq<(Seq<char>, Seq<char>)>) -> Option<Seq<(Seq<char>, Seq<char>)>> {
    match first_named(nodes, "spine"@, 0, nodes.len() as int) {
        Some(s) => Some(spine_entries(
            nodes,
            s,
            if subtree_end(nodes, s) < nodes.len() { subtree_end(nodes, s) } else { nodes.len() as int },
            manifest(nodes),
            titles,
            package,
        )),
        None => None,
    }
}

/// The reading order of the package file `package` in the archive, whose
/// nodes are `nodes`, with the titles of its table of contents.
pub open spec fn package_spine(archive: Seq<u8>, package: Seq<char>, nodes: Seq<NodeView>) -> Option<Seq<(Seq<char>, Seq<char>)>> {
    reading_order_of(package, nodes, ncx_titles(archive, toc_target(package, nodes)))
}

/// The package file the container names: the `full-path` of its first
/// `rootfile`.
pub open spec fn container_package(nodes: Seq<NodeView>) -> Option<Seq<char>> {
    match first_named(nodes, "rootfile"@, 0, nodes.len() as int) {
        Some(r) => attribute(nodes[r], "full-path"@),
        None => None,
    }
}

/// A book's chapters in reading order, each as its path in the archive and
/// its title: the container names the package file, whose spine lists the
/// chapters by manifest id; titles come from the table of contents. None
/// when the container or the package cannot be read, or has no spine.
pub open spec fn epub_spine(archive: Seq<u8>) -> Option<Seq<(Seq<char>, Seq<char>)>> {
    match zip_text(archive, "META-INF/container.xml"@) {
        Some(container) => match xml_nodes(container) {
            Some(cn) => match container_package(cn) {
                Some(package) => match zip_text(archive, package) {
                    Some(opf) => match xml_nodes(opf) {
                        Some(nodes) => package_spine(archive, package, nodes),
                        None => None,
                    },
                    None => None,
                },
                None => None,
            },
            None => None,
        },
        None => None,
    }
}

pub open spec fn pairs_view(v: Seq<(Vec<char>, Vec<char>)>) -> Seq<(Seq<char>, Seq<char>)> {
    v.map_values(|p: (Vec<char>, Vec<char>)| (p.0@, p.1@))
}

pub open spec fn strings_view(v: Seq<(String, String)>) -> Seq<(Seq<char>, Seq<char>)> {
    v.map_values(|p: (String, String)| (p.0@, p.1@))
}

fn lookup_in(pairs: &Vec<(Vec<char>, Vec<char>)>, key: &Vec<char>) -> (r: Option<Vec<char>>)
    ensures
        match r {
            Some(v) => lookup(pairs_view(pairs@), key@) == Some(v@),
            None => lookup(pairs_view(pairs@), key@).is_none(),
        },
{
    let ghost p = pairs_view(pairs@);
    let mut i = pairs.len();
    assert(p.take(i as int) =~= p);
    while i > 0
        invariant
            i <= pairs@.len(),
            p == pairs_view(pairs@),
            lookup(p, key@) == lookup(p.take(i as int), key@),
        decreases i,
    {
        assert(p.take(i as int).drop_last() =~= p.take(i - 1));
        assert(p.take(i as int).last() == p[i - 1]);
        assert(p[i - 1] == (pairs@[i - 1].0@, pairs@[i - 1].1@));
        if eq_chars(&pairs[i - 1].0, key) {
            return Some(slice(&pairs[i - 1].1, 0, pairs[i - 1].1.len()));
        }
        i -= 1;
    }
    assert(p.take(0) =~= Seq::<(Seq<char>, Seq<char>)>::empty());
    None
}

fn manifest_of(nodes: &Vec<XmlNode>) -> (r: Vec<(Vec<char>, Vec<char>)>)
    ensures
        pairs_view(r@) == manifest(nodes_view(nodes@)),
{
    let ghost v = nodes_view(nodes@);
    let mut items: Vec<(Vec<char>, Vec<char>)> = Vec::new();
    let mut i: usize = 0;
    while i < nodes.len()
        invariant
            i <= nodes@.len(),
            v == nodes_view(nodes@),
            pairs_view(items@) == manifest(v.take(i as int)),
        decreases nodes.len() - i,
    {
        assert(v.take(i + 1).drop_last() =~= v.take(i as int));
        assert(v.take(i + 1).last() == node_view(nodes@[i as int]));
        let n = &nodes[i];
        let name = chars_of(n.name.as_str());
        if eq_str(&name, "item") {
            match (attribute_of(n, "id"), attribute_of(n, "href")) {
                (Some(id), Some(href)) => {
                    let ghost before = pairs_view(items@);
                    items.push((chars_of(id.as_str()), chars_of(href.as_str())));
                    assert(pairs_view(items@) =~= before.push((id@, href@)));
                },
                _ => {},
            }
        }
        i += 1;
    }
    assert(v.take(nodes.len() as int) =~= v);
    items
}

fn beside_chars(package: &Vec<char>, rel: &Vec<char>) -> (r: Vec<char>)
    ensures
        r@ == beside(package@, rel@),
{
    let mut last: Option<usize> = None;
    let mut i: usize = 0;
    while i < package.len()
        invariant
            i <= package@.len(),
            match last {
                Some(k) => k < i && package@[k as int] == '/' && forall|j: int| k < j < i ==> package@[j] != '/',
                None => forall|j: int| 0 <= j < i ==> package@[j] != '/',
            },
        decreases package.len() - i,
    {
        if package[i] == '/' {
            last = Some(i);
        }
        i += 1;
    }
    match last {
        Some(k) => {
            let mut out = slice(package, 0, k);
            out.push('/');
            push_all(&mut out, rel);
            proof {
                assert(package@.contains('/')) by {
                    assert(package@[k as int] == '/');
                }
                lemma_split_tail(package@, '/', k as int);
            }
            out
        },
        None => {
            assert(!package@.contains('/'));
            slice(rel, 0, rel.len())
        },
    }
}

/// The last piece that `split` makes is what follows the last separator.
proof fn lemma_split_tail(s: Seq<char>, sep: char, k: int)
    requires
        0 <= k < s.len(),
        s[k] == sep,
        forall|j: int| k < j < s.len() ==> s[j] != sep,
    ensures
        split(s, sep).last() == s.skip(k + 1),
    decreases s.len(),
{
    lemma_split_nonempty(s, sep);
    if k == s.len() - 1 {
        assert(s.skip(k + 1) =~= Seq::<char>::empty());
    } else {
        lemma_split_tail(s.drop_last(), sep, k);
        lemma_split_nonempty(s.drop_last(), sep);
        assert(s.drop_last().skip(k + 1).push(s.last()) =~= s.skip(k + 1));
    }
}

fn before_hash_chars(src: &Vec<char>) -> (r: Vec<char>)
    ensures
        r@ == before_hash(src@),
{
    let parts = split_at_char(src.as_slice(), '#');
    proof {
        lemma_split_nonempty(src@, '#');
    }
    slice(&parts[0], 0, parts[0].len())
}

/// The titles of a table of contents (NCX), given its nodes: each
/// navigation point's target, without its fragment, and its trimmed title,
/// in document order (see `nav_titles`).
pub fn navigation_titles(nodes: &Vec<XmlNode>) -> (r: Vec<(String, String)>)
    ensures
        strings_view(r@) == nav_titles(nodes_view(nodes@), nodes@.len() as int),
{
    let ghost v = nodes_view(nodes@);
    let mut titles: Vec<(String, String)> = Vec::new();
    let mut i: usize = 0;
    while i < nodes.len()
        invariant
            i <= nodes@.len(),
            v == nodes_view(nodes@),
            v.len() == nodes@.len(),
            strings_view(titles@) == nav_titles(v, i as int),
        decreases nodes.len() - i,
    {
        let n = &nodes[i];
        assert(v[i as int] == node_view(nodes@[i as int]));
        let name = chars_of(n.name.as_str());
        if eq_str(&name, "navPoint") {
            let end = if n.size <= usize::MAX - i { i + n.size } else { usize::MAX };
            let t = find_named(nodes, "text", i, end);
            let c = find_named(nodes, "content", i, end);
            proof {
                lemma_first_named(v, "text"@, i as int, subtree_end(v, i as int));
                lemma_first_named(v, "content"@, i as int, subtree_end(v, i as int));
                lemma_first_named_end(v, "text"@, i as int, end as int, subtree_end(v, i as int));
                lemma_first_named_end(v, "content"@, i as int, end as int, subtree_end(v, i as int));
            }
            match (t, c) {
                (Some(t), Some(c)) => {
                    assert(v[t as int] == node_view(nodes@[t as int]));
                    assert(v[c as int] == node_view(nodes@[c as int]));
                    match (&nodes[t].text, attribute_of(&nodes[c], "src")) {
                        (Some(text), Some(src)) => {
                            let s = chars_of(src.as_str());
                            let target = before_hash_chars(&s);
                            let tv = chars_of(text.as_str());
                            let title = trimmed(&tv);
                            let ghost before = strings_view(titles@);
                            titles.push((string_of(&target), string_of(&title)));
                            assert(strings_view(titles@) =~= before.push(nav_entry(v, i as int).unwrap()));
                        },
                        _ => {},
                    }
                },
                _ => {},
            }
        }
        i += 1;
    }
    titles
}

/// Searching up to any end at or past the subtree's end, but within the
/// nodes, finds the same node when the subtree ends inside the document.
proof fn lemma_first_named_end(nodes: Seq<NodeView>, name: Seq<char>, i: int, end: int, exact: int)
    requires
        end == exact || (end > nodes.len() && exact > nodes.len()) || (end >= nodes.len() && exact >= nodes.len()),
    ensures
        first_named(nodes, name, i, end) == first_named(nodes, name, i, exact),
    decreases nodes.len() - i,
{
    if !(i < 0 || i >= end || i >= nodes.len()) && nodes[i].name != name {
        lemma_first_named_end(nodes, name, i + 1, end, exact);
    }
}

fn char_pairs(v: &Vec<(String, String)>) -> (r: Vec<(Vec<char>, Vec<char>)>)
    ensures
        pairs_view(r@) == strings_view(v@),
{
    let mut out: Vec<(Vec<char>, Vec<char>)> = Vec::new();
    let mut i: usize = 0;
    while i < v.len()
        invariant
            i <= v@.len(),
            pairs_view(out@) == strings_view(v@).take(i as int),
        decreases v.len() - i,
    {
        let ghost before = pairs_view(out@);
        out.push((chars_of(v[i].0.as_str()), chars_of(v[i].1.as_str())));
        assert(pairs_view(out@) =~= before.push((v@[i as int].0@, v@[i as int].1@)));
        assert(strings_view(v@).take(i + 1) =~= strings_view(v@).take(i as int).push((v@[i as int].0@, v@[i as int].1@)));
        i += 1;
    }
    assert(strings_view(v@).take(v@.len() as int) =~= strings_view(v@));
    out
}

/// The package file that a container file names, given the container's
/// nodes (see `container_package`).
pub fn package_path(container: &Vec<XmlNode>) -> (r: Option<String>)
    ensures
        opt_text(r) == container_package(nodes_view(container@)),
{
    let r = find_named(container, "rootfile", 0, container.len());
    proof {
        lemma_first_named(nodes_view(container@), "rootfile"@, 0, container@.len() as int);
    }
    let r = r?;
    assert(nodes_view(container@)[r as int] == node_view(container@[r as int]));
    attribute_of(&container[r], "full-path")
}

/// Where the table of contents of the package file `package` is, given the
/// package's nodes (see `toc_target`).
pub fn toc_path(package: &str, nodes: &Vec<XmlNode>) -> (r: Option<String>)
    ensures
        opt_text(r) == toc_target(package@, nodes_view(nodes@)),
{
    let ghost v = nodes_view(nodes@);
    let s = find_named(nodes, "spine", 0, nodes.len());
    proof {
        lemma_first_named(v, "spine"@, 0, nodes@.len() as int);
    }
    let s = s?;
    assert(v[s as int] == node_view(nodes@[s as int]));
    let toc = attribute_of(&nodes[s], "toc")?;
    let items = manifest_of(nodes);
    let href = lookup_in(&items, &chars_of(toc.as_str()))?;
    Some(string_of(&beside_chars(&chars_of(package), &href)))
}

/// The reading order of the package file `package`, given its nodes and
/// the titles of its table of contents: each chapter as its path in the
/// archive and its title; none when the package has no spine (see
/// `reading_order_of`).
pub fn reading_order(package: &str, nodes: &Vec<XmlNode>, titles: &Vec<(String, String)>) -> (r: Option<Vec<(String, String)>>)
    ensures
        match r {
            Some(v) => reading_order_of(package@, nodes_view(nodes@), strings_view(titles@)) == Some(strings_view(v@)),
            None => reading_order_of(package@, nodes_view(nodes@), strings_view(titles@)).is_none(),
        },
{
    let ghost v = nodes_view(nodes@);
    let s = find_named(nodes, "spine", 0, nodes.len());
    proof {
        lemma_first_named(v, "spine"@, 0, nodes@.len() as int);
    }
    let s = s?;
    assert(v[s as int] == node_view(nodes@[s as int]));
    let to = if nodes[s].size < nodes.len() - s { s + nodes[s].size } else { nodes.len() };
    let items = manifest_of(nodes);
    let title_chars = char_pairs(titles);
    Some(spine_of(nodes, s, to, &items, &title_chars, &chars_of(package)))
}

fn spine_of(
    nodes: &Vec<XmlNode>,
    from: usize,
    to: usize,
    items: &Vec<(Vec<char>, Vec<char>)>,
    titles: &Vec<(Vec<char>, Vec<char>)>,
    package: &Vec<char>,
) -> (r: Vec<(String, String)>)
    requires
        to <= nodes@.len(),
    ensures
        strings_view(r@) == spine_entries(nodes_view(nodes@), from as int, to as int, pairs_view(items@), pairs_view(titles@), package@),
{
    let ghost v = nodes_view(nodes@);
    let ghost iv = pairs_view(items@);
    let ghost tv = pairs_view(titles@);
    let mut out: Vec<(String, String)> = Vec::new();
    let mut k = from;
    if to <= from {
        assert(strings_view(out@) =~= Seq::<(Seq<char>, Seq<char>)>::empty());
        return out;
    }
    assert(strings_view(out@) =~= spine_entries(v, from as int, from as int, iv, tv, package@));
    while k < to
        invariant
            from <= k <= to <= nodes@.len(),
            v == nodes_view(nodes@),
            iv == pairs_view(items@),
            tv == pairs_view(titles@),
            strings_view(out@) == spine_entries(v, from as int, k as int, iv, tv, package@),
        decreases to - k,
    {
        let n = &nodes[k];
        assert(v[k as int] == node_view(nodes@[k as int]));
        let name = chars_of(n.name.as_str());
        let ghost before = strings_view(out@);
        if eq_str(&name, "itemref") {
            if let Some(idref) = attribute_of(n, "idref") {
                let id = chars_of(idref.as_str());
                if let Some(href) = lookup_in(items, &id) {
                    let full = beside_chars(package, &href);
                    let title = match lookup_in(titles, &href) {
                        Some(t) => t,
                        None => chars_of("Section"),
                    };
                    out.push((string_of(&full), string_of(&title)));
                    assert(strings_view(out@) =~= before.push(spine_entry(v, k as int, iv, tv, package@).unwrap()));
                }
            }
        }
        k += 1;
    }
    out
}

/// A book's chapters in reading order, each as its path in the archive and
/// its title (see `epub_spine`).
pub fn get_epub_spine(archive: &[u8]) -> (r: Option<Vec<(String, String)>>)
    ensures
        match r {
            Some(v) => epub_spine(archive@) == Some(strings_view(v@)),
            None => epub_spine(archive@).is_none(),
        },
{
    let container = read_zip_file(archive, "META-INF/container.xml")?;
    let cn = parse_xml(container.as_str())?;
    let package = package_path(&cn)?;
    let opf = read_zip_file(archive, package.as_str())?;
    let nodes = parse_xml(opf.as_str())?;
    let target = toc_path(package.as_str(), &nodes);
    let titles = match &target {
        Some(path) => match read_zip_file(archive, path.as_str()) {
            Some(xml) => match parse_xml(xml.as_str()) {
                Some(ncx) => navigation_titles(&ncx),
                None => Vec::new(),
            },
            None => Vec::new(),
        },
        None => Vec::new(),
    };
    assert(strings_view(titles@) == ncx_titles(archive@, toc_target(package@, nodes_view(nodes@))));
    reading_order(package.as_str(), &nodes, &titles)
}

/// Why a file cannot be read as a book.
#[derive(PartialEq, Eq, Structural, Clone, Copy, Debug)]
pub enum BookError {
    /// It is not a zip archive
    NotZip,
    /// It has no package or spine
    NotEpub,
    /// Its spine lists no chapter
    NoChapters,
}

/// The interface text that tells of each error.
pub open spec fn error_text(e: BookError) -> Text {
    match e {
        BookError::NotZip => Text::NotZip,
        BookError::NotEpub => Text::NotEpub,
        BookError::NoChapters => Text::NoChapters,
    }
}

impl BookError {
    /// What the reader is told when the book at `path` cannot be read, in
    /// the interface language `ui`.
    pub fn message(self, ui: Language, path: &str) -> (r: String)
        ensures
            r@ == filled(translation(ui, error_text(self)), path@, ""@),
    {
        let text = match self {
            BookError::NotZip => Text::NotZip,
            BookError::NotEpub => Text::NotEpub,
            BookError::NoChapters => Text::NoChapters,
        };
        fill(tr(ui, text), path, "")
    }
}

/// The chapters of the book in the archive's bytes, or why there are none
/// to read.
pub fn open_book(archive: &[u8]) -> (r: Result<Vec<(String, String)>, BookError>)
    ensures
        !zip_archive(archive@) ==> r == Err::<Vec<(String, String)>, BookError>(BookError::NotZip),
        zip_archive(archive@) ==> match epub_spine(archive@) {
            None => r == Err::<Vec<(String, String)>, BookError>(BookError::NotEpub),
            Some(s) => if s.len() == 0 {
                r == Err::<Vec<(String, String)>, BookError>(BookError::NoChapters)
            } else {
                r matches Ok(v) && strings_view(v@) == s
            },
        },
{
    if !is_zip(archive) {
        return Err(BookError::NotZip);
    }
    match get_epub_spine(archive) {
        None => Err(BookError::NotEpub),
        Some(spine) => if spine.len() == 0 {
            Err(BookError::NoChapters)
        } else {
            Ok(spine)
        },
    }
}

// ------------------------------------------------------------ chapters

/// The lines `textwrap::wrap` breaks `text` into for `width` columns.
pub uninterp spec fn wrapped(text: Seq<char>, width: usize) -> Seq<Seq<char>>;

pub open spec fn strings_of(v: Seq<String>) -> Seq<Seq<char>> {
    v.map_values(|s: String| s@)
}

/// Breaks text into lines of at most `width` columns (`textwrap::wrap`).
/// The contract names the lines `wrapped` of the text and the width, and
/// states that there is at least one: `wrap` wraps each piece the line
/// ending splits the text into (always one at least), and each piece adds a
/// line on the fast path, or one per group on the slow path, where both wrap
/// algorithms give at least one group. Where the breaks fall, and whether a
/// line can be empty, is left to textwrap.
#[verifier::external_body]
fn wrap(text: &str, width: usize) -> (r: Vec<String>)
    ensures
        strings_of(r@) == wrapped(text@, width),
        r@.len() >= 1,
{
    textwrap::wrap(text, width).into_iter().map(|line| line.into_owned()).collect()
}

/// The lines of a text as `str::lines` gives them, up to trailing carriage
/// returns: the pieces between line feeds, without an empty last one.
pub open spec fn text_lines(s: Seq<char>) -> Seq<Seq<char>> {
    if split(s, '\n').last().len() == 0 {
        split(s, '\n').drop_last()
    } else {
        split(s, '\n')
    }
}

/// `n` spaces.
pub open spec fn blanks(n: nat) -> Seq<char> {
    Seq::new(n, |i: int| ' ')
}

/// The lines laid out so far, and whether the last of them is empty (or
/// none has been laid out yet).
pub open spec fn chapter_step(st: (Seq<Seq<char>>, bool), line: Seq<char>, wrap_width: usize, margin: usize) -> (Seq<Seq<char>>, bool) {
    let t = trim(line);
    if t.len() == 0 {
        if st.1 { st } else { (st.0.push(Seq::empty()), true) }
    } else if t.contains('\x1e') {
        let clean = remove_all(t, seq!['\x1e']);
        let visible = without_ansi(clean).len();
        let pad = if wrap_width > visible { ((wrap_width - visible) / 2) as nat } else { 0 };
        (st.0.push(blanks(margin as nat) + blanks(pad) + clean), false)
    } else {
        (st.0 + wrapped(t, wrap_width).map_values(|w: Seq<char>| blanks(margin as nat) + w), false)
    }
}

pub open spec fn chapter_fold(lines: Seq<Seq<char>>, wrap_width: usize, margin: usize) -> (Seq<Seq<char>>, bool)
    decreases lines.len(),
{
    if lines.len() == 0 {
        (Seq::empty(), true)
    } else {
        chapter_step(chapter_fold(lines.drop_last(), wrap_width, margin), lines.last(), wrap_width, margin)
    }
}

/// Lines without the empty ones at the end.
pub open spec fn without_trailing_empty(lines: Seq<Seq<char>>) -> Seq<Seq<char>>
    decreases lines.len(),
{
    if lines.len() > 0 && lines.last().len() == 0 {
        without_trailing_empty(lines.drop_last())
    } else {
        lines
    }
}

/// A chapter's HTML laid out for the terminal: formatted as text, each line
/// trimmed and wrapped to `wrap_width` columns after a margin of `margin`
/// spaces; centered lines (marked with U+001E) are centered instead of
/// wrapped; runs of empty lines become one, and none is left at the end.
pub open spec fn chapter_lines(html: Seq<char>, wrap_width: usize, margin: usize) -> Seq<Seq<char>> {
    without_trailing_empty(chapter_fold(text_lines(formatted(html)), wrap_width, margin).0)
}

/// Centered lines are centered: a line marked for centering (U+001E) is laid
/// out, after the margin, with the same room on its left as on its right
/// within the wrap width (the odd column going right), its marks removed;
/// one too wide for the width starts right after the margin.
pub proof fn law_centered_lines_are_centered(st: (Seq<Seq<char>>, bool), line: Seq<char>, wrap_width: usize, margin: usize)
    requires
        trim(line).len() > 0,
        trim(line).contains('\x1e'),
    ensures
        ({
            let clean = remove_all(trim(line), seq!['\x1e']);
            let visible = without_ansi(clean).len();
            let next = chapter_step(st, line, wrap_width, margin);
            &&& next.1 == false
            &&& next.0.len() == st.0.len() + 1
            &&& next.0.take(st.0.len() as int) == st.0
            &&& exists|left: nat| {
                &&& #[trigger] next.0.last() == blanks(margin as nat) + blanks(left) + clean
                &&& (visible < wrap_width ==> left + visible + left <= wrap_width
                    && wrap_width <= left + visible + left + 1)
                &&& (visible >= wrap_width ==> left == 0)
            }
        }),
{
    let clean = remove_all(trim(line), seq!['\x1e']);
    let visible = without_ansi(clean).len();
    let pad = if wrap_width > visible { ((wrap_width - visible) / 2) as nat } else { 0 };
    let next = chapter_step(st, line, wrap_width, margin);
    assert(next.0 == st.0.push(blanks(margin as nat) + blanks(pad) + clean));
    assert(next.0.take(st.0.len() as int) =~= st.0);
    assert(next.0.last() == blanks(margin as nat) + blanks(pad) + clean);
}

/// No two empty lines follow each other.
pub open spec fn no_blank_pairs(lines: Seq<Seq<char>>) -> bool {
    forall|i: int, j: int|
        #![trigger lines[i], lines[j]]
        0 <= i && j == i + 1 && j < lines.len() ==> !(lines[i].len() == 0 && lines[j].len() == 0)
}

/// Blank runs collapsed: no two empty lines in a row, and none first or last.
pub open spec fn blank_runs_collapsed(lines: Seq<Seq<char>>) -> bool {
    &&& no_blank_pairs(lines)
    &&& lines.len() > 0 ==> lines[0].len() > 0 && lines.last().len() > 0
}

/// Every line that is not empty starts with the margin's spaces.
pub open spec fn after_margin(lines: Seq<Seq<char>>, margin: usize) -> bool {
    forall|i: int|
        0 <= i < lines.len() && (#[trigger] lines[i]).len() > 0 ==> lines[i].len() >= margin
            && lines[i].take(margin as int) == blanks(margin as nat)
}

/// Each line of the text that is not blank, and that is wrapped rather
/// than centered, wraps to at least one line (as `wrap` states of every
/// call).
pub open spec fn wraps_to_lines(lines: Seq<Seq<char>>, wrap_width: usize) -> bool {
    forall|i: int|
        0 <= i < lines.len() && (#[trigger] trim(lines[i])).len() > 0 && !trim(lines[i]).contains('\x1e')
            ==> wrapped(trim(lines[i]), wrap_width).len() > 0
}

/// No line that textwrap makes of the text's wrapped lines is empty.
pub open spec fn wraps_without_empty(lines: Seq<Seq<char>>, wrap_width: usize) -> bool {
    forall|i: int|
        0 <= i < lines.len() && (#[trigger] trim(lines[i])).len() > 0 && !trim(lines[i]).contains('\x1e')
            ==> forall|k: int|
                0 <= k < wrapped(trim(lines[i]), wrap_width).len() ==> (#[trigger] wrapped(trim(lines[i]), wrap_width)[k]).len() > 0
}

/// What laying out keeps true line after line.
spec fn fold_keeps(st: (Seq<Seq<char>>, bool)) -> bool {
    &&& no_blank_pairs(st.0)
    &&& st.1 <==> (st.0.len() == 0 || st.0.last().len() == 0)
    &&& st.0.len() > 0 ==> st.0[0].len() > 0
}

proof fn lemma_fold_margin(lines: Seq<Seq<char>>, wrap_width: usize, margin: usize)
    ensures
        after_margin(chapter_fold(lines, wrap_width, margin).0, margin),
    decreases lines.len(),
{
    if lines.len() > 0 {
        lemma_fold_margin(lines.drop_last(), wrap_width, margin);
        let st = chapter_fold(lines.drop_last(), wrap_width, margin);
        let out = st.0;
        let t = trim(lines.last());
        let next = chapter_step(st, lines.last(), wrap_width, margin);
        let m = blanks(margin as nat);
        if t.len() == 0 {
            if !st.1 {
                assert(next.0 == out.push(Seq::<char>::empty()));
                assert forall|i: int| 0 <= i < next.0.len() && (#[trigger] next.0[i]).len() > 0
                    implies next.0[i].len() >= margin && next.0[i].take(margin as int) == m by {
                    assert(next.0[i] == out[i]);
                }
            }
        } else if t.contains('\x1e') {
            let clean = remove_all(t, seq!['\x1e']);
            let visible = without_ansi(clean).len();
            let pad = if wrap_width > visible { ((wrap_width - visible) / 2) as nat } else { 0 };
            let line = m + blanks(pad) + clean;
            assert(next.0 == out.push(line));
            assert(line.take(margin as int) =~= m);
            assert forall|i: int| 0 <= i < next.0.len() && (#[trigger] next.0[i]).len() > 0
                implies next.0[i].len() >= margin && next.0[i].take(margin as int) == m by {
                if i < out.len() {
                    assert(next.0[i] == out[i]);
                }
            }
        } else {
            let w = wrapped(t, wrap_width);
            let more = w.map_values(|x: Seq<char>| m + x);
            assert(next.0 == out + more);
            assert forall|i: int| 0 <= i < next.0.len() && (#[trigger] next.0[i]).len() > 0
                implies next.0[i].len() >= margin && next.0[i].take(margin as int) == m by {
                if i < out.len() {
                    assert(next.0[i] == out[i]);
                } else {
                    assert(next.0[i] == m + w[i - out.len()]);
                    assert((m + w[i - out.len()]).take(margin as int) =~= m);
                }
            }
        }
    }
}

proof fn lemma_fold_keeps(lines: Seq<Seq<char>>, wrap_width: usize, margin: usize)
    requires
        wraps_to_lines(lines, wrap_width),
        margin > 0 || (wrap_width >= 2 && wraps_without_empty(lines, wrap_width)),
    ensures
        fold_keeps(chapter_fold(lines, wrap_width, margin)),
    decreases lines.len(),
{
    if lines.len() > 0 {
        let rest = lines.drop_last();
        assert forall|i: int| 0 <= i < rest.len() && (#[trigger] trim(rest[i])).len() > 0 && !trim(rest[i]).contains('\x1e')
            implies wrapped(trim(rest[i]), wrap_width).len() > 0 by {
            assert(rest[i] == lines[i]);
            assert(trim(lines[i]).len() > 0);
        }
        if margin == 0 {
            assert forall|i: int| 0 <= i < rest.len() && (#[trigger] trim(rest[i])).len() > 0 && !trim(rest[i]).contains('\x1e')
                implies forall|k: int| 0 <= k < wrapped(trim(rest[i]), wrap_width).len()
                    ==> (#[trigger] wrapped(trim(rest[i]), wrap_width)[k]).len() > 0 by {
                assert(rest[i] == lines[i]);
                assert(trim(lines[i]).len() > 0);
            }
        }
        lemma_fold_keeps(rest, wrap_width, margin);
        let st = chapter_fold(rest, wrap_width, margin);
        let out = st.0;
        let t = trim(lines.last());
        let next = chapter_step(st, lines.last(), wrap_width, margin);
        let m = blanks(margin as nat);
        if t.len() == 0 {
            if !st.1 {
                assert(next.0 == out.push(Seq::<char>::empty()));
                assert forall|i: int, j: int| 0 <= i && j == i + 1 && j < next.0.len()
                    implies !(#[trigger] next.0[i].len() == 0 && #[trigger] next.0[j].len() == 0) by {
                    if j < out.len() {
                        assert(next.0[i] == out[i] && next.0[j] == out[j]);
                    } else {
                        assert(next.0[i] == out.last());
                    }
                }
            }
        } else if t.contains('\x1e') {
            let clean = remove_all(t, seq!['\x1e']);
            let visible = without_ansi(clean).len();
            let pad = if wrap_width > visible { ((wrap_width - visible) / 2) as nat } else { 0 };
            let line = m + blanks(pad) + clean;
            if clean.len() == 0 {
                assert(without_ansi(clean) =~= Seq::<char>::empty());
            }
            assert(line.len() > 0);
            assert(next.0 == out.push(line));
            assert forall|i: int, j: int| 0 <= i && j == i + 1 && j < next.0.len()
                implies !(#[trigger] next.0[i].len() == 0 && #[trigger] next.0[j].len() == 0) by {
                if j < out.len() {
                    assert(next.0[i] == out[i] && next.0[j] == out[j]);
                } else {
                    assert(next.0[j] == line);
                }
            }
        } else {
            let w = wrapped(t, wrap_width);
            let more = w.map_values(|x: Seq<char>| m + x);
            assert(lines.last() == lines[lines.len() - 1]);
            assert(w.len() > 0);
            assert(next.0 == out + more);
            assert forall|k: int| 0 <= k < more.len() implies #[trigger] more[k].len() > 0 by {
                assert(more[k] == m + w[k]);
                if margin == 0 {
                    assert(w[k].len() > 0);
                }
            }
            assert forall|i: int, j: int| 0 <= i && j == i + 1 && j < next.0.len()
                implies !(#[trigger] next.0[i].len() == 0 && #[trigger] next.0[j].len() == 0) by {
                if j < out.len() {
                    assert(next.0[i] == out[i] && next.0[j] == out[j]);
                } else {
                    assert(next.0[j] == more[j - out.len()]);
                }
            }
            assert(next.0.last() == more.last());
            if out.len() == 0 {
                assert(next.0[0] == more[0]);
            } else {
                assert(next.0[0] == out[0]);
            }
        }
    }
}

/// What `without_trailing_empty` keeps is a start of the lines that ends
/// with a line that is not empty, unless it is empty itself.
proof fn lemma_without_trailing(lines: Seq<Seq<char>>)
    ensures
        exists|k: int| 0 <= k <= lines.len() && without_trailing_empty(lines) == lines.take(k)
            && (k > 0 ==> lines[k - 1].len() > 0),
    decreases lines.len(),
{
    if lines.len() > 0 && lines.last().len() == 0 {
        lemma_without_trailing(lines.drop_last());
        let k = choose|k: int| 0 <= k <= lines.drop_last().len() && without_trailing_empty(lines.drop_last()) == lines.drop_last().take(k)
            && (k > 0 ==> lines.drop_last()[k - 1].len() > 0);
        assert(lines.drop_last().take(k) =~= lines.take(k));
    } else {
        assert(lines.take(lines.len() as int) =~= lines);
    }
}

/// Blank runs collapse: a chapter laid out never shows two empty lines in
/// a row, nor one at its start or its end. It holds where textwrap gives
/// each wrapped line of the text at least one line (which `wrap` states of
/// each call, so `chapter_text_lines` ensures it outright), and either
/// there is a margin, or the width leaves a centered line something to show
/// and no wrapped line comes out empty.
pub proof fn law_blank_runs_collapse(html: Seq<char>, wrap_width: usize, margin: usize)
    requires
        wraps_to_lines(text_lines(formatted(html)), wrap_width),
        margin > 0 || (wrap_width >= 2 && wraps_without_empty(text_lines(formatted(html)), wrap_width)),
    ensures
        blank_runs_collapsed(chapter_lines(html, wrap_width, margin)),
{
    let all = chapter_fold(text_lines(formatted(html)), wrap_width, margin).0;
    lemma_fold_keeps(text_lines(formatted(html)), wrap_width, margin);
    lemma_without_trailing(all);
    let k = choose|k: int| 0 <= k <= all.len() && without_trailing_empty(all) == all.take(k)
        && (k > 0 ==> all[k - 1].len() > 0);
    let kept = all.take(k);
    assert forall|i: int, j: int| 0 <= i && j == i + 1 && j < kept.len()
        implies !(#[trigger] kept[i].len() == 0 && #[trigger] kept[j].len() == 0) by {
        assert(kept[i] == all[i] && kept[j] == all[j]);
    }
    if k > 0 {
        assert(kept[0] == all[0]);
        assert(kept.last() == all[k - 1]);
    }
}

/// Every line of a chapter that is not empty starts with the margin.
pub proof fn law_lines_start_after_margin(html: Seq<char>, wrap_width: usize, margin: usize)
    ensures
        after_margin(chapter_lines(html, wrap_width, margin), margin),
{
    let all = chapter_fold(text_lines(formatted(html)), wrap_width, margin).0;
    lemma_fold_margin(text_lines(formatted(html)), wrap_width, margin);
    lemma_without_trailing(all);
    let k = choose|k: int| 0 <= k <= all.len() && without_trailing_empty(all) == all.take(k)
        && (k > 0 ==> all[k - 1].len() > 0);
    let kept = all.take(k);
    assert forall|i: int| 0 <= i < kept.len() && (#[trigger] kept[i]).len() > 0
        implies kept[i].len() >= margin && kept[i].take(margin as int) == blanks(margin as nat) by {
        assert(kept[i] == all[i]);
    }
}

fn push_blanks(out: &mut Vec<char>, n: usize)
    ensures
        final(out)@ == old(out)@ + blanks(n as nat),
{
    let ghost start = out@;
    let mut i: usize = 0;
    while i < n
        invariant
            i <= n,
            out@ == start + blanks(i as nat),
        decreases n - i,
    {
        out.push(' ');
        i += 1;
        assert(out@ =~= start + blanks(i as nat));
    }
}

fn contains_char(v: &Vec<char>, c: char) -> (r: bool)
    ensures
        r == v@.contains(c),
{
    let mut i: usize = 0;
    while i < v.len()
        invariant
            i <= v@.len(),
            forall|j: int| 0 <= j < i ==> v@[j] != c,
        decreases v.len() - i,
    {
        if v[i] == c {
            return true;
        }
        i += 1;
    }
    false
}

fn lay_out_line(out: &mut Vec<String>, last_empty: &mut bool, line: &Vec<char>, wrap_width: usize, margin: usize)
    ensures
        (strings_of(final(out)@), *final(last_empty)) == chapter_step((strings_of(old(out)@), *old(last_empty)), line@, wrap_width, margin),
        trim(line@).len() > 0 && !trim(line@).contains('\x1e') ==> wrapped(trim(line@), wrap_width).len() > 0,
{
    let ghost before = strings_of(out@);
    let t = trimmed(line.as_slice());
    if t.len() == 0 {
        if !*last_empty {
            out.push(string_of(&Vec::new()));
            *last_empty = true;
            assert(strings_of(out@) =~= before.push(Seq::<char>::empty()));
        }
    } else if contains_char(&t, '\x1e') {
        let mut mark: Vec<char> = Vec::new();
        mark.push('\x1e');
        assert(mark@ =~= seq!['\x1e']);
        let clean = remove_all_of(t.as_slice(), mark.as_slice());
        let clean_text = string_of(&clean);
        let visible = chars_of(strip_ansi(clean_text.as_str()).as_str()).len();
        let pad = if wrap_width > visible { (wrap_width - visible) / 2 } else { 0 };
        let mut l: Vec<char> = Vec::new();
        push_blanks(&mut l, margin);
        push_blanks(&mut l, pad);
        push_all(&mut l, &clean);
        out.push(string_of(&l));
        *last_empty = false;
        assert(strings_of(out@) =~= before.push(blanks(margin as nat) + blanks(pad as nat) + clean@));
    } else {
        let text = string_of(&t);
        let pieces = wrap(text.as_str(), wrap_width);
        let ghost w = wrapped(t@, wrap_width);
        let mut k: usize = 0;
        while k < pieces.len()
            invariant
                k <= pieces@.len(),
                strings_of(pieces@) == w,
                strings_of(out@) == before + w.take(k as int).map_values(|x: Seq<char>| blanks(margin as nat) + x),
            decreases pieces.len() - k,
        {
            let mut l: Vec<char> = Vec::new();
            push_blanks(&mut l, margin);
            push_str(&mut l, pieces[k].as_str());
            let ghost prev = strings_of(out@);
            out.push(string_of(&l));
            assert(w[k as int] == pieces@[k as int]@);
            assert(w.take(k + 1).map_values(|x: Seq<char>| blanks(margin as nat) + x)
                =~= w.take(k as int).map_values(|x: Seq<char>| blanks(margin as nat) + x).push(blanks(margin as nat) + w[k as int]));
            assert(strings_of(out@) =~= prev.push(l@));
            k += 1;
        }
        assert(w.take(pieces.len() as int) =~= w);
        *last_empty = false;
    }
}

/// Lays a chapter's HTML out as lines of terminal text (see `chapter_lines`).
pub fn chapter_text_lines(html: &str, wrap_width: usize, margin: usize) -> (r: Vec<String>)
    ensures
        strings_of(r@) == chapter_lines(html@, wrap_width, margin),
        after_margin(strings_of(r@), margin),
        margin > 0 ==> blank_runs_collapsed(strings_of(r@)),
        wrap_width >= 2 && wraps_without_empty(text_lines(formatted(html@)), wrap_width)
            ==> blank_runs_collapsed(strings_of(r@)),
{
    let clean = format_html_for_terminal(html);
    let chars = chars_of(clean.as_str());
    let mut pieces = split_at_char(chars.as_slice(), '\n');
    proof {
        lemma_split_nonempty(chars@, '\n');
    }
    if pieces[pieces.len() - 1].len() == 0 {
        pieces.pop();
    }
    let ghost lines = views(pieces@);
    assert(lines == text_lines(formatted(html@)));
    let mut out: Vec<String> = Vec::new();
    let mut last_empty = true;
    let mut i: usize = 0;
    assert(strings_of(out@) =~= Seq::<Seq<char>>::empty());
    assert(lines.take(0) =~= Seq::<Seq<char>>::empty());
    while i < pieces.len()
        invariant
            i <= pieces@.len(),
            lines == views(pieces@),
            (strings_of(out@), last_empty) == chapter_fold(lines.take(i as int), wrap_width, margin),
            wraps_to_lines(lines.take(i as int), wrap_width),
        decreases pieces.len() - i,
    {
        assert(lines.take(i + 1).drop_last() =~= lines.take(i as int));
        assert(lines.take(i + 1).last() == pieces@[i as int]@);
        lay_out_line(&mut out, &mut last_empty, &pieces[i], wrap_width, margin);
        let ghost next = lines.take(i + 1);
        assert forall|k: int| 0 <= k < next.len() && (#[trigger] trim(next[k])).len() > 0 && !trim(next[k]).contains('\x1e')
            implies wrapped(trim(next[k]), wrap_width).len() > 0 by {
            if k < i {
                assert(next[k] == lines.take(i as int)[k]);
            } else {
                assert(next[k] == pieces@[i as int]@);
            }
        }
        i += 1;
    }
    assert(lines.take(pieces.len() as int) =~= lines);
    proof {
        law_lines_start_after_margin(html@, wrap_width, margin);
        if margin > 0 || (wrap_width >= 2 && wraps_without_empty(lines, wrap_width)) {
            law_blank_runs_collapse(html@, wrap_width, margin);
        }
    }
    let ghost full = strings_of(out@);
    while out.len() > 0 && chars_of(out[out.len() - 1].as_str()).len() == 0
        invariant
            without_trailing_empty(full) == without_trailing_empty(strings_of(out@)),
        decreases out.len(),
    {
        let ghost before = strings_of(out@);
        out.pop();
        assert(strings_of(out@) =~= before.drop_last());
    }
    out
}

/// The HTML of the chapter at `path` in the archive; none when it cannot
/// be read.
pub open spec fn chapter_html(archive: Seq<u8>, path: Seq<char>) -> Seq<char> {
    match zip_text(archive, path) {
        Some(t) => t,
        None => Seq::empty(),
    }
}

/// The chapter at `path` in the archive, laid out for `wrap_width` columns
/// after a margin of `margin_left` spaces; a chapter that cannot be read
/// lays out as nothing.
pub fn load_chapter(archive: &[u8], path: &str, wrap_width: usize, margin_left: usize) -> (r: Vec<String>)
    ensures
        strings_of(r@) == chapter_lines(chapter_html(archive@, path@), wrap_width, margin_left),
        after_margin(strings_of(r@), margin_left),
        margin_left > 0 ==> blank_runs_collapsed(strings_of(r@)),
        wrap_width >= 2 && wraps_without_empty(text_lines(formatted(chapter_html(archive@, path@))), wrap_width)
            ==> blank_runs_collapsed(strings_of(r@)),
{
    let raw = match read_zip_file(archive, path) {
        Some(t) => t,
        None => string_of(&Vec::new()),
    };
    chapter_text_lines(raw.as_str(), wrap_width, margin_left)
}

/// How much text each chapter holds, in characters of its HTML (none for
/// a chapter that cannot be read): what the progress through the whole
/// book is weighed by.
pub fn chapter_sizes(archive: &[u8], spine: &Vec<(String, String)>) -> (r: Vec<usize>)
    ensures
        r@.len() == spine@.len(),
        forall|i: int| 0 <= i < r@.len() ==> r@[i] == match #[trigger] zip_text(archive@, spine@[i].0@) {
            Some(t) => t.len(),
            None => 0,
        },
{
    let mut sizes: Vec<usize> = Vec::new();
    let mut i: usize = 0;
    while i < spine.len()
        invariant
            i <= spine@.len(),
            sizes@.len() == i,
            forall|k: int| 0 <= k < i ==> sizes@[k] == match #[trigger] zip_text(archive@, spine@[k].0@) {
                Some(t) => t.len(),
                None => 0,
            },
        decreases spine.len() - i,
    {
        let n = match read_zip_file(archive, spine[i].0.as_str()) {
            Some(t) => chars_of(t.as_str()).len(),
            None => 0,
        };
        sizes.push(n);
        i += 1;
    }
    sizes
}

} // verus!
