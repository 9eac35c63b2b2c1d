//! Bookmarks: where each book was left, found again by a fingerprint of the
//! book's content, so moving or renaming the file keeps its place.

use vstd::prelude::*;
use crate::text::{chars_of, eq_chars, push_str, string_of};

verus! {

/// Where a book was left. `progress` is the fraction of the chapter read,
/// kept as the bits of the `f64` the bookmarks file stores.
#[derive(Debug)]
pub struct Bookmark {
    pub chapter: usize,
    pub progress: u64,
    /// Where the book was last opened from, to find it again if its content changes
    pub path: String,
}

pub struct BookmarkView {
    pub chapter: usize,
    pub progress: u64,
    pub path: Seq<char>,
}

impl View for Bookmark {
    type V = BookmarkView;

    open spec fn view(&self) -> BookmarkView {
        BookmarkView { chapter: self.chapter, progress: self.progress, path: self.path@ }
    }
}

impl Bookmark {
    pub fn copy(&self) -> (r: Bookmark)
        ensures
            r@ == self@,
    {
        Bookmark { chapter: self.chapter, progress: self.progress, path: string_of(&chars_of(self.path.as_str())) }
    }
}

/// How a book is looked up in the bookmarks: by a fingerprint of its content,
/// with its path as a fallback.
#[derive(Debug)]
pub struct BookId {
    pub key: String,
    pub path: String,
}

/// Every bookmark, each under its own key.
pub struct State {
    /// Kept as a vector of entries whose keys are distinct (the type's
    /// invariant) rather than a `HashMap<String, Bookmark>`: vstd's
    /// hash-map contracts hold only for key types known to obey its key
    /// model, and `String` is not among them, while a vector's view is a
    /// sequence that every method here is proved against.
    books: Vec<(String, Bookmark)>,
}

pub open spec fn entry_view(e: (String, Bookmark)) -> (Seq<char>, BookmarkView) {
    (e.0@, e.1@)
}

/// The bookmarks in the order they are kept.
pub open spec fn entries_view(v: Seq<(String, Bookmark)>) -> Seq<(Seq<char>, BookmarkView)> {
    v.map_values(|e: (String, Bookmark)| entry_view(e))
}

/// No key occurs twice.
pub open spec fn distinct_keys(s: Seq<(Seq<char>, BookmarkView)>) -> bool {
    forall|i: int, j: int| 0 <= i < j < s.len() ==> s[i].0 != s[j].0
}

impl View for State {
    type V = Seq<(Seq<char>, BookmarkView)>;

    closed spec fn view(&self) -> Seq<(Seq<char>, BookmarkView)> {
        entries_view(self.books@)
    }
}

/// The first place in `s` at or after `i` whose entry is under `key`.
pub open spec fn key_index(s: Seq<(Seq<char>, BookmarkView)>, key: Seq<char>, i: int) -> Option<int>
    decreases s.len() - i,
{
    if i < 0 || i >= s.len() {
        None
    } else if s[i].0 == key {
        Some(i)
    } else {
        key_index(s, key, i + 1)
    }
}

/// The first place in `s` at or after `i` whose bookmark was opened from `path`.
pub open spec fn path_index(s: Seq<(Seq<char>, BookmarkView)>, path: Seq<char>, i: int) -> Option<int>
    decreases s.len() - i,
{
    if i < 0 || i >= s.len() {
        None
    } else if s[i].1.path == path {
        Some(i)
    } else {
        path_index(s, path, i + 1)
    }
}

/// A book's bookmark: the one under its fingerprint, else one saved under
/// its path before fingerprints, else one last opened from its path (the
/// same file with changed content, e.g. edited metadata).
pub open spec fn found(s: Seq<(Seq<char>, BookmarkView)>, key: Seq<char>, path: Seq<char>) -> Option<BookmarkView> {
    match key_index(s, key, 0) {
        Some(i) => Some(s[i].1),
        None => match key_index(s, path, 0) {
            Some(i) => Some(s[i].1),
            None => match path_index(s, path, 0) {
                Some(i) => Some(s[i].1),
                None => None,
            },
        },
    }
}

/// Whether an entry survives recording a position for the book: its own
/// entry does, and so does every entry that is not for the same file.
pub open spec fn kept(e: (Seq<char>, BookmarkView), key: Seq<char>, path: Seq<char>) -> bool {
    e.0 == key || (e.0 != path && e.1.path != path)
}

/// The entries that survive, in order.
pub open spec fn kept_entries(s: Seq<(Seq<char>, BookmarkView)>, key: Seq<char>, path: Seq<char>) -> Seq<(Seq<char>, BookmarkView)>
    decreases s.len(),
{
    if s.len() == 0 {
        Seq::empty()
    } else if kept(s.last(), key, path) {
        kept_entries(s.drop_last(), key, path).push(s.last())
    } else {
        kept_entries(s.drop_last(), key, path)
    }
}

/// `s` with `key` now holding `b`: in place if the key is there, else at the end.
pub open spec fn inserted(s: Seq<(Seq<char>, BookmarkView)>, key: Seq<char>, b: BookmarkView) -> Seq<(Seq<char>, BookmarkView)> {
    match key_index(s, key, 0) {
        Some(i) => s.update(i, (key, b)),
        None => s.push((key, b)),
    }
}

/// The bookmarks after recording `chapter` and `progress` for the book.
pub open spec fn recorded(s: Seq<(Seq<char>, BookmarkView)>, key: Seq<char>, path: Seq<char>, chapter: usize, progress: u64) -> Seq<(Seq<char>, BookmarkView)> {
    inserted(kept_entries(s, key, path), key, BookmarkView { chapter, progress, path })
}

pub proof fn lemma_key_index(s: Seq<(Seq<char>, BookmarkView)>, key: Seq<char>, i: int)
    requires
        0 <= i,
    ensures
        match key_index(s, key, i) {
            Some(j) => i <= j < s.len() && s[j].0 == key && forall|k: int| i <= k < j ==> s[k].0 != key,
            None => forall|k: int| i <= k < s.len() ==> s[k].0 != key,
        },
    decreases s.len() - i,
{
    if i < s.len() && s[i].0 != key {
        lemma_key_index(s, key, i + 1);
    }
}

pub proof fn lemma_path_index(s: Seq<(Seq<char>, BookmarkView)>, path: Seq<char>, i: int)
    requires
        0 <= i,
    ensures
        match path_index(s, path, i) {
            Some(j) => i <= j < s.len() && s[j].1.path == path && forall|k: int| i <= k < j ==> s[k].1.path != path,
            None => forall|k: int| i <= k < s.len() ==> s[k].1.path != path,
        },
    decreases s.len() - i,
{
    if i < s.len() && s[i].1.path != path {
        lemma_path_index(s, path, i + 1);
    }
}

pub proof fn lemma_kept_entries(s: Seq<(Seq<char>, BookmarkView)>, key: Seq<char>, path: Seq<char>)
    ensures
        forall|e| #[trigger] kept_entries(s, key, path).contains(e) <==> s.contains(e) && kept(e, key, path),
        distinct_keys(s) ==> distinct_keys(kept_entries(s, key, path)),
    decreases s.len(),
{
    if s.len() > 0 {
        let rest = s.drop_last();
        lemma_kept_entries(rest, key, path);
        let kr = kept_entries(rest, key, path);
        let ks = kept_entries(s, key, path);
        if kept(s.last(), key, path) {
            assert(ks == kr.push(s.last()));
        } else {
            assert(ks == kr);
        }
        assert forall|e| ks.contains(e) <==> s.contains(e) && kept(e, key, path) by {
            if s.contains(e) && kept(e, key, path) {
                let k = choose|k: int| 0 <= k < s.len() && s[k] == e;
                if k < s.len() - 1 {
                    assert(rest[k] == e);
                    assert(rest.contains(e));
                    assert(kr.contains(e));
                    let j = choose|j: int| 0 <= j < kr.len() && kr[j] == e;
                    assert(ks[j] == e);
                } else {
                    assert(ks[kr.len() as int] == e);
                }
            }
            if ks.contains(e) {
                let j = choose|j: int| 0 <= j < ks.len() && ks[j] == e;
                if j < kr.len() {
                    assert(kr[j] == e);
                    assert(kr.contains(e));
                    assert(rest.contains(e));
                    let k = choose|k: int| 0 <= k < rest.len() && rest[k] == e;
                    assert(s[k] == e);
                } else {
                    assert(kept(s.last(), key, path));
                    assert(ks[j] == s.last());
                    assert(s[s.len() - 1] == e);
                }
            }
        }
        if distinct_keys(s) {
            assert(distinct_keys(rest));
            if kept(s.last(), key, path) {
                assert forall|i: int, j: int| 0 <= i < j < ks.len() implies ks[i].0 != ks[j].0 by {
                    if j == kr.len() {
                        assert(kr.contains(kr[i]));
                        assert(rest.contains(kr[i]));
                        let k = choose|k: int| 0 <= k < rest.len() && rest[k] == kr[i];
                        assert(s[k] == kr[i]);
                    }
                }
            }
        }
    } else {
        assert forall|e| kept_entries(s, key, path).contains(e) <==> s.contains(e) && kept(e, key, path) by {
        }
    }
}

/// After recording, the book's fingerprint leads to the new position.
pub proof fn lemma_recorded_key(s: Seq<(Seq<char>, BookmarkView)>, key: Seq<char>, path: Seq<char>, chapter: usize, progress: u64)
    ensures
        key_index(recorded(s, key, path, chapter, progress), key, 0) matches Some(i)
            && recorded(s, key, path, chapter, progress)[i] == (key, BookmarkView { chapter, progress, path }),
{
    let k = kept_entries(s, key, path);
    let b = BookmarkView { chapter, progress, path };
    let r = recorded(s, key, path, chapter, progress);
    lemma_key_index(k, key, 0);
    lemma_key_index(r, key, 0);
    match key_index(k, key, 0) {
        Some(i) => {
            assert(r == k.update(i, (key, b)));
            assert(r[i].0 == key);
            assert forall|j: int| 0 <= j < i implies r[j].0 != key by {
                assert(r[j] == k[j]);
            }
        },
        None => {
            assert(r == k.push((key, b)));
            assert(r[k.len() as int].0 == key);
            assert forall|j: int| 0 <= j < k.len() implies r[j].0 != key by {
                assert(r[j] == k[j]);
            }
        },
    }
}

impl State {
    #[verifier::type_invariant]
    spec fn keys_distinct(&self) -> bool {
        distinct_keys(entries_view(self.books@))
    }

    /// No bookmarks.
    pub fn new() -> (s: Self)
        ensures
            s@ == Seq::<(Seq<char>, BookmarkView)>::empty(),
    {
        let s = State { books: Vec::new() };
        assert(entries_view(s.books@) =~= Seq::<(Seq<char>, BookmarkView)>::empty());
        s
    }

    /// The `i`-th bookmark kept, with its key.
    pub fn entry(&self, i: usize) -> (r: (&String, &Bookmark))
        requires
            i < self@.len(),
        ensures
            (r.0@, r.1@) == self@[i as int],
    {
        (&self.books[i].0, &self.books[i].1)
    }

    /// How many bookmarks there are.
    pub fn len(&self) -> (r: usize)
        ensures
            r == self@.len(),
    {
        self.books.len()
    }

    fn index_of_key(&self, key: &[char]) -> (r: Option<usize>)
        ensures
            match r {
                Some(i) => key_index(self@, key@, 0) == Some(i as int) && i < self@.len(),
                None => key_index(self@, key@, 0).is_none(),
            },
            self@.len() == self.books@.len(),
    {
        let ghost s = self@;
        let mut i: usize = 0;
        while i < self.books.len()
            invariant
                i <= self.books@.len(),
                s == self@,
                s.len() == self.books@.len(),
                key_index(s, key@, 0) == key_index(s, key@, i as int),
            decreases self.books.len() - i,
        {
            let k = chars_of(self.books[i].0.as_str());
            assert(s[i as int].0 == self.books@[i as int].0@);
            if eq_chars(&k, key) {
                return Some(i);
            }
            i += 1;
        }
        None
    }

    fn index_of_path(&self, path: &[char]) -> (r: Option<usize>)
        ensures
            match r {
                Some(i) => path_index(self@, path@, 0) == Some(i as int) && i < self@.len(),
                None => path_index(self@, path@, 0).is_none(),
            },
            self@.len() == self.books@.len(),
    {
        let ghost s = self@;
        let mut i: usize = 0;
        while i < self.books.len()
            invariant
                i <= self.books@.len(),
                s == self@,
                s.len() == self.books@.len(),
                path_index(s, path@, 0) == path_index(s, path@, i as int),
            decreases self.books.len() - i,
        {
            let p = chars_of(self.books[i].1.path.as_str());
            assert(s[i as int].1.path == self.books@[i as int].1.path@);
            if eq_chars(&p, path) {
                return Some(i);
            }
            i += 1;
        }
        None
    }

    /// Whether a bookmark is kept under `key`.
    pub fn contains_key(&self, key: &str) -> (r: bool)
        ensures
            r == key_index(self@, key@, 0).is_some(),
    {
        let k = chars_of(key);
        self.index_of_key(&k).is_some()
    }

    /// The bookmark under `key`.
    pub fn get(&self, key: &str) -> (r: Option<&Bookmark>)
        ensures
            match key_index(self@, key@, 0) {
                Some(i) => r matches Some(b) && b@ == self@[i].1,
                None => r.is_none(),
            },
    {
        let k = chars_of(key);
        match self.index_of_key(&k) {
            Some(i) => {
                assert(self@[i as int].1 == self.books@[i as int].1@);
                Some(&self.books[i].1)
            },
            None => None,
        }
    }

    /// Keeps `bookmark` under `key`, replacing what was there.
    pub fn insert(&mut self, key: String, bookmark: Bookmark)
        ensures
            final(self)@ == inserted(old(self)@, key@, bookmark@),
    {
        proof {
            use_type_invariant(&*self);
        }
        let k = chars_of(key.as_str());
        let ghost s = self@;
        let ghost e = (key@, bookmark@);
        match self.index_of_key(&k) {
            Some(i) => {
                proof {
                    lemma_key_index(s, key@, 0);
                }
                let mut books: Vec<(String, Bookmark)> = Vec::new();
                std::mem::swap(&mut books, &mut self.books);
                books.set(i, (key, bookmark));
                assert(entries_view(books@) =~= s.update(i as int, e));
                self.books = books;
            },
            None => {
                proof {
                    lemma_key_index(s, key@, 0);
                }
                let mut books: Vec<(String, Bookmark)> = Vec::new();
                std::mem::swap(&mut books, &mut self.books);
                books.push((key, bookmark));
                assert(entries_view(books@) =~= s.push(e));
                self.books = books;
            },
        }
    }

    /// The book's bookmark, by its fingerprint, then its path as a key, then
    /// its path as last opened (see `found`).
    pub fn find(&self, book: &BookId) -> (r: Option<&Bookmark>)
        ensures
            match found(self@, book.key@, book.path@) {
                Some(b) => r matches Some(m) && m@ == b,
                None => r.is_none(),
            },
    {
        let key = chars_of(book.key.as_str());
        let path = chars_of(book.path.as_str());
        if let Some(i) = self.index_of_key(&key) {
            assert(self@[i as int].1 == self.books@[i as int].1@);
            return Some(&self.books[i].1);
        }
        if let Some(i) = self.index_of_key(&path) {
            assert(self@[i as int].1 == self.books@[i as int].1@);
            return Some(&self.books[i].1);
        }
        if let Some(i) = self.index_of_path(&path) {
            assert(self@[i as int].1 == self.books@[i as int].1@);
            return Some(&self.books[i].1);
        }
        None
    }

    /// Saves a position under the book's fingerprint, replacing older entries
    /// for the same file: those under its path and those last opened from it.
    pub fn record(&mut self, book: &BookId, chapter: usize, progress: u64)
        ensures
            final(self)@ == recorded(old(self)@, book.key@, book.path@, chapter, progress),
    {
        proof {
            use_type_invariant(&*self);
        }
        let key = chars_of(book.key.as_str());
        let path = chars_of(book.path.as_str());
        let ghost s = self@;
        let mut books: Vec<(String, Bookmark)> = Vec::new();
        std::mem::swap(&mut books, &mut self.books);
        let mut kept_books: Vec<(String, Bookmark)> = Vec::new();
        let mut i: usize = 0;
        while i < books.len()
            invariant
                i <= books@.len(),
                s == entries_view(books@),
                key@ == book.key@,
                path@ == book.path@,
                entries_view(kept_books@) == kept_entries(s.take(i as int), book.key@, book.path@),
            decreases books.len() - i,
        {
            let k = chars_of(books[i].0.as_str());
            let p = chars_of(books[i].1.path.as_str());
            let keep = eq_chars(&k, &key) || (!eq_chars(&k, &path) && !eq_chars(&p, &path));
            assert(s.take(i + 1).drop_last() =~= s.take(i as int));
            assert(s.take(i + 1).last() == s[i as int]);
            assert(s[i as int] == entry_view(books@[i as int]));
            if keep {
                let entry = (string_of(&k), books[i].1.copy());
                kept_books.push(entry);
                assert(entries_view(kept_books@) =~= kept_entries(s.take(i + 1), book.key@, book.path@));
            }
            i += 1;
        }
        assert(s.take(books.len() as int) =~= s);
        proof {
            lemma_kept_entries(s, book.key@, book.path@);
        }
        self.books = kept_books;
        let mark = Bookmark { chapter, progress, path: string_of(&path) };
        self.insert(string_of(&key), mark);
    }
}

/// Recording a position and then looking the book up finds that position,
/// opened from the book's path.
pub proof fn law_find_after_record(s: Seq<(Seq<char>, BookmarkView)>, key: Seq<char>, path: Seq<char>, chapter: usize, progress: u64)
    ensures
        found(recorded(s, key, path, chapter, progress), key, path) == Some(BookmarkView { chapter, progress, path }),
{
    lemma_recorded_key(s, key, path, chapter, progress);
}

/// After recording, the book's own entry is the only one for its file: no
/// other entry is under its path or was last opened from it.
pub proof fn law_record_replaces_the_file(s: Seq<(Seq<char>, BookmarkView)>, key: Seq<char>, path: Seq<char>, chapter: usize, progress: u64)
    ensures
        forall|i: int| 0 <= i < recorded(s, key, path, chapter, progress).len()
            && recorded(s, key, path, chapter, progress)[i].0 != key
            ==> recorded(s, key, path, chapter, progress)[i].0 != path
            && recorded(s, key, path, chapter, progress)[i].1.path != path,
{
    let k = kept_entries(s, key, path);
    let r = recorded(s, key, path, chapter, progress);
    lemma_kept_entries(s, key, path);
    lemma_key_index(k, key, 0);
    let b = BookmarkView { chapter, progress, path };
    assert forall|i: int| 0 <= i < r.len() && r[i].0 != key implies r[i].0 != path && r[i].1.path != path by {
        match key_index(k, key, 0) {
            Some(j) => {
                assert(r == k.update(j, (key, b)));
                if i != j {
                    assert(r[i] == k[i]);
                    assert(k.contains(k[i]));
                    assert(kept(k[i], key, path));
                } else {
                    assert(r[i].0 == key);
                }
            },
            None => {
                assert(r == k.push((key, b)));
                if i < k.len() {
                    assert(r[i] == k[i]);
                    assert(k.contains(k[i]));
                    assert(kept(k[i], key, path));
                } else {
                    assert(r[i].0 == key);
                }
            },
        }
    }
}

/// Recording a position for one book keeps every entry of other files.
pub proof fn law_record_keeps_other_books(
    s: Seq<(Seq<char>, BookmarkView)>,
    key: Seq<char>,
    path: Seq<char>,
    chapter: usize,
    progress: u64,
    e: (Seq<char>, BookmarkView),
)
    requires
        s.contains(e),
        e.0 != key,
        e.0 != path,
        e.1.path != path,
    ensures
        recorded(s, key, path, chapter, progress).contains(e),
{
    let k = kept_entries(s, key, path);
    lemma_kept_entries(s, key, path);
    assert(k.contains(e));
    let i = choose|i: int| 0 <= i < k.len() && k[i] == e;
    lemma_key_index(k, key, 0);
    assert(recorded(s, key, path, chapter, progress)[i] == e);
}

/// A moved or renamed book, with the same content, finds the position
/// recorded for it at its old path.
pub proof fn law_moved_book_keeps_its_place(
    s: Seq<(Seq<char>, BookmarkView)>,
    key: Seq<char>,
    old_path: Seq<char>,
    new_path: Seq<char>,
    chapter: usize,
    progress: u64,
)
    ensures
        found(recorded(s, key, old_path, chapter, progress), key, new_path)
            == Some(BookmarkView { chapter, progress, path: old_path }),
{
    lemma_recorded_key(s, key, old_path, chapter, progress);
}

/// Where the `step`-th sample of a book is read: 256 bytes in, then 1 KiB,
/// 4 KiB, 16 KiB and so on up to 1 GiB, the sampling KOReader uses for its
/// partial-MD5 document fingerprint.
pub open spec fn sample_start(step: int) -> u64 {
    if step == 0 {
        256
    } else {
        1024u64 << ((2 * (step - 1)) as u64)
    }
}

/// How many samples a fingerprint reads at most.
pub const SAMPLES: usize = 12;

/// The byte offset of the `step`-th sample.
pub fn sample_offset(step: usize) -> (r: u64)
    requires
        step < SAMPLES,
    ensures
        r == sample_start(step as int),
{
    if step == 0 {
        256
    } else {
        1024u64 << (2 * (step as u64 - 1))
    }
}

/// One step of 64-bit FNV-1a.
pub open spec fn fnv64_step(hash: u64, byte: u8) -> u64 {
    (((hash ^ (byte as u64)) as int * 0x0100_0000_01b3) % 0x1_0000_0000_0000_0000) as u64
}

pub open spec fn fnv64(hash: u64, bytes: Seq<u8>) -> u64
    decreases bytes.len(),
{
    if bytes.len() == 0 {
        hash
    } else {
        fnv64_step(fnv64(hash, bytes.drop_last()), bytes.last())
    }
}

/// The hash of the samples up to the first empty one (where the book ended).
pub open spec fn samples_hash(hash: u64, samples: Seq<Seq<u8>>) -> u64
    decreases samples.len(),
{
    if samples.len() == 0 || samples[0].len() == 0 {
        hash
    } else {
        samples_hash(fnv64(hash, samples[0]), samples.drop_first())
    }
}

/// A lower-case hexadecimal digit.
pub open spec fn hex_digit(d: u64) -> char {
    if d < 10 { ((d + 48) as u32) as char } else { ((d + 87) as u32) as char }
}

/// `n` in 16 lower-case hexadecimal digits, leading zeros kept.
pub open spec fn hex16(n: u64) -> Seq<char> {
    Seq::new(16, |i: int| hex_digit((n >> ((60 - 4 * i) as u64)) & 15u64))
}

/// A book's fingerprint: 64-bit FNV-1a over its samples, in hexadecimal.
pub open spec fn fingerprint_of(samples: Seq<Seq<u8>>) -> Seq<char> {
    "fingerprint:"@ + hex16(samples_hash(0xcbf2_9ce4_8422_2325, samples))
}

fn fnv64_bytes(hash: u64, bytes: &[u8]) -> (r: u64)
    ensures
        r == fnv64(hash, bytes@),
{
    let mut h = hash;
    let mut i: usize = 0;
    while i < bytes.len()
        invariant
            i <= bytes.len(),
            h == fnv64(hash, bytes@.take(i as int)),
        decreases bytes.len() - i,
    {
        assert(bytes@.take(i + 1).drop_last() =~= bytes@.take(i as int));
        let x: u64 = h ^ (bytes[i] as u64);
        h = ((x as u128 * 0x0100_0000_01b3u128) % 0x1_0000_0000_0000_0000u128) as u64;
        i += 1;
    }
    assert(bytes@.take(bytes.len() as int) =~= bytes@);
    h
}

fn hex_char(d: u64) -> (c: char)
    requires
        d < 16,
    ensures
        c == hex_digit(d),
{
    if d < 10 {
        let b: u8 = 48 + d as u8;
        b as char
    } else {
        let b: u8 = 87 + d as u8;
        b as char
    }
}

/// The fingerprint of a book from its samples, read at `sample_offset(0)`,
/// `sample_offset(1)`, ... up to 1 KiB each (less where the book ends);
/// hashing stops at the first empty sample.
pub fn fingerprint(samples: &Vec<Vec<u8>>) -> (r: String)
    ensures
        r@ == fingerprint_of(samples@.map_values(|v: Vec<u8>| v@)),
{
    let ghost views = samples@.map_values(|v: Vec<u8>| v@);
    let mut hash: u64 = 0xcbf2_9ce4_8422_2325;
    let mut i: usize = 0;
    assert(views.skip(0) =~= views);
    while i < samples.len() && samples[i].len() > 0
        invariant
            i <= samples.len(),
            views == samples@.map_values(|v: Vec<u8>| v@),
            samples_hash(0xcbf2_9ce4_8422_2325, views) == samples_hash(hash, views.skip(i as int)),
        decreases samples.len() - i,
    {
        assert(views.skip(i as int)[0] == samples@[i as int]@);
        assert(views.skip(i as int).drop_first() =~= views.skip(i + 1));
        hash = fnv64_bytes(hash, samples[i].as_slice());
        i += 1;
    }
    proof {
        if i < samples.len() {
            assert(views.skip(i as int)[0] == samples@[i as int]@);
        }
    }
    let mut out: Vec<char> = Vec::new();
    push_str(&mut out, "fingerprint:");
    let ghost head = out@;
    let mut k: usize = 0;
    while k < 16
        invariant
            k <= 16,
            head == "fingerprint:"@,
            out@ == head + hex16(hash).take(k as int),
        decreases 16 - k,
    {
        let shift: u64 = 60 - 4 * (k as u64);
        let d = (hash >> shift) & 15u64;
        assert(d < 16) by (bit_vector)
            requires
                d == (hash >> shift) & 15u64,
        ;
        out.push(hex_char(d));
        k += 1;
        assert(out@ =~= head + hex16(hash).take(k as int));
    }
    assert(hex16(hash).take(16) =~= hex16(hash));
    string_of(&out)
}

impl BookId {
    /// The book at `path`, known by the fingerprint of its samples, or by its
    /// path when it could not be read (`None`).
    pub fn new(path: String, samples: Option<Vec<Vec<u8>>>) -> (r: BookId)
        ensures
            r.path@ == path@,
            r.key@ == match samples {
                Some(v) => fingerprint_of(v@.map_values(|s: Vec<u8>| s@)),
                None => path@,
            },
    {
        let key = match &samples {
            Some(v) => fingerprint(v),
            None => string_of(&chars_of(path.as_str())),
        };
        BookId { key, path }
    }
}

} // verus!
