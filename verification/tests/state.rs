use moosereader::state::{fingerprint, sample_offset, BookId, Bookmark, State, SAMPLES};

fn id(key: &str, path: &str) -> BookId {
    BookId {
        key: key.to_string(),
        path: path.to_string(),
    }
}

/// The samples a file with these bytes gives: up to 1 KiB at each offset,
/// fewer where the file ends.
fn samples(bytes: &[u8]) -> Vec<Vec<u8>> {
    (0..SAMPLES)
        .map(|step| {
            let start = (sample_offset(step) as usize).min(bytes.len());
            let end = (start + 1024).min(bytes.len());
            bytes[start..end].to_vec()
        })
        .collect()
}

#[test]
fn fingerprint_depends_on_content_only() {
    let a: Vec<u8> = (0..20_000u32).map(|i| (i % 251) as u8).collect();
    let mut b = a.clone();
    b[5_000] ^= 1; // inside the sample taken at 4 KiB
    let print = |bytes: &[u8]| fingerprint(&samples(bytes));
    assert_eq!(print(&a), print(&a.clone()));
    assert_ne!(print(&a), print(&b));
}

#[test]
fn bookmarks_follow_moves_edits_and_old_path_keys() {
    let mut state = State::new();
    let old = Bookmark {
        chapter: 3,
        progress: 0.5f64.to_bits(),
        path: String::new(),
    };
    state.insert("/old/book.epub".to_string(), old);

    // First open after upgrading: found by its path key, then saved by fingerprint
    let at_old = id("fingerprint:1", "/old/book.epub");
    assert_eq!(state.find(&at_old).map(|b| b.chapter), Some(3));
    state.record(&at_old, 4, 0.1f64.to_bits());
    assert_eq!(state.len(), 1);

    // Moved or renamed: same fingerprint
    let moved = id("fingerprint:1", "/new/renamed.epub");
    assert_eq!(state.find(&moved).map(|b| b.chapter), Some(4));

    // Edited in place: new fingerprint, same path
    let edited = id("fingerprint:2", "/old/book.epub");
    assert_eq!(state.find(&edited).map(|b| b.chapter), Some(4));
    state.record(&edited, 5, 0.0f64.to_bits());
    assert_eq!(state.len(), 1);
    assert!(state.contains_key("fingerprint:2"));
}

#[test]
fn a_copied_or_renamed_book_has_the_same_key() {
    let bytes: Vec<u8> = (0..50_000u32).map(|i| (i * 7 % 256) as u8).collect();
    let mut edited = bytes.clone();
    edited[17_000] ^= 1; // inside the sample taken at 16 KiB
    let key = |path: &str, content: Option<&[u8]>| BookId::new(path.to_string(), content.map(samples)).key;
    assert_eq!(key("a.epub", Some(&bytes)), key("renamed.epub", Some(&bytes)));
    assert_ne!(key("a.epub", Some(&bytes)), key("edited.epub", Some(&edited)));
    // A file that can't be read is known by its path
    assert_eq!(key("missing.epub", None), "missing.epub");
}

#[test]
fn fingerprints_are_sixteen_hex_digits() {
    let print = fingerprint(&samples(&[]));
    // Nothing read: the FNV-1a offset basis
    assert_eq!(print, "fingerprint:cbf29ce484222325");
    let one = fingerprint(&vec![vec![b'a'], vec![]]);
    assert_eq!(one, "fingerprint:af63dc4c8601ec8c");
    // Samples after an empty one are not read
    assert_eq!(fingerprint(&vec![vec![b'a'], vec![], vec![1, 2]]), one);
}

#[test]
fn samples_are_taken_ever_further_in() {
    assert_eq!(sample_offset(0), 256);
    assert_eq!(sample_offset(1), 1024);
    assert_eq!(sample_offset(2), 4096);
    assert_eq!(sample_offset(11), 1 << 30);
}

#[test]
fn recording_keeps_other_books_and_replaces_the_same_file() {
    let mut state = State::new();
    state.record(&id("fingerprint:a", "/a.epub"), 1, 0);
    state.record(&id("fingerprint:b", "/b.epub"), 2, 0);
    state.insert(
        "/b.epub".to_string(),
        Bookmark {
            chapter: 9,
            progress: 0,
            path: String::new(),
        },
    );
    assert_eq!(state.len(), 3);
    state.record(&id("fingerprint:c", "/b.epub"), 7, 1.0f64.to_bits());
    // The old entries of /b.epub are gone, /a.epub's stays
    assert_eq!(state.len(), 2);
    assert_eq!(state.get("fingerprint:a").map(|b| b.chapter), Some(1));
    let mark = state.find(&id("fingerprint:c", "/elsewhere.epub")).unwrap();
    assert_eq!((mark.chapter, mark.progress, mark.path.as_str()), (7, 1.0f64.to_bits(), "/b.epub"));
    assert!(!state.contains_key("/b.epub"));
}
