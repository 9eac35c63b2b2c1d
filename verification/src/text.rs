//! Characters and strings: conversions between `&str`/`String` and `Vec<char>`,
//! and the small pieces of string handling the parsers share.

use vstd::prelude::*;

verus! {

/// The characters of `s`, in order.
pub fn chars_of(s: &str) -> (v: Vec<char>)
    ensures
        v@ == s@,
{
    let mut v: Vec<char> = Vec::new();
    for c in it: s.chars()
        invariant
            v@ == it.seq().take(it.index() as int),
    {
        v.push(c);
    }
    assert(v@ == s@);
    v
}

/// The string made of `v`'s characters (std's `FromIterator<&char> for String`).
#[verifier::external_body]
pub(crate) fn string_of(v: &[char]) -> (s: String)
    ensures
        s@ == v@,
{
    v.iter().collect()
}

/// Whether `v` holds exactly the characters of `lit`.
pub fn eq_str(v: &[char], lit: &str) -> (r: bool)
    ensures
        r == (v@ == lit@),
{
    let w = chars_of(lit);
    if v.len() != w.len() {
        return false;
    }
    let mut i: usize = 0;
    while i < v.len()
        invariant
            i <= v.len(),
            v.len() == w.len(),
            w@ == lit@,
            forall|j: int| 0 <= j < i ==> v@[j] == w@[j],
        decreases v.len() - i,
    {
        let a = v[i];
        let b = w[i];
        if a != b {
            assert(v@[i as int] != lit@[i as int]);
            assert(!(v@ =~= lit@));
            return false;
        }
        i += 1;
    }
    assert(v@ =~= w@);
    true
}

/// Whether `s` starts with `p`.
pub open spec fn starts_with(s: Seq<char>, p: Seq<char>) -> bool {
    p.len() <= s.len() && s.take(p.len() as int) == p
}

pub proof fn lemma_starts_with_char(s: Seq<char>, c: char)
    ensures
        starts_with(s, seq![c]) == (s.len() > 0 && s[0] == c),
{
    if s.len() > 0 {
        assert(s.take(1)[0] == s[0]);
        if s[0] == c {
            assert(s.take(1) =~= seq![c]);
        }
    }
}

/// Whether two character sequences are equal.
pub fn eq_chars(a: &[char], b: &[char]) -> (r: bool)
    ensures
        r == (a@ == b@),
{
    if a.len() != b.len() {
        return false;
    }
    let mut i: usize = 0;
    while i < a.len()
        invariant
            i <= a.len(),
            a.len() == b.len(),
            forall|j: int| 0 <= j < i ==> a@[j] == b@[j],
        decreases a.len() - i,
    {
        if a[i] != b[i] {
            assert(a@[i as int] != b@[i as int]);
            return false;
        }
        i += 1;
    }
    assert(a@ =~= b@);
    true
}

/// Whether `v` starts with the characters of `lit`.
pub fn starts_with_str(v: &[char], lit: &str) -> (r: bool)
    ensures
        r == starts_with(v@, lit@),
{
    let w = chars_of(lit);
    if v.len() < w.len() {
        return false;
    }
    let mut i: usize = 0;
    while i < w.len()
        invariant
            i <= w.len(),
            w.len() <= v.len(),
            w@ == lit@,
            forall|j: int| 0 <= j < i ==> v@[j] == w@[j],
        decreases w.len() - i,
    {
        if v[i] != w[i] {
            assert(v@.take(w@.len() as int)[i as int] == v@[i as int]);
            assert(!(v@.take(lit@.len() as int) =~= lit@));
            return false;
        }
        i += 1;
    }
    assert(v@.take(w@.len() as int) =~= w@);
    true
}

/// ASCII whitespace as `char::is_ascii_whitespace` defines it.
pub open spec fn is_ascii_space(c: char) -> bool {
    c == ' ' || c == '\t' || c == '\n' || c == '\x0C' || c == '\r'
}

/// Unicode White_Space, which `char::is_whitespace`, `str::trim` and
/// `str::split_whitespace` go by.
pub open spec fn is_white_space(c: char) -> bool {
    ||| ('\t' <= c && c <= '\r')
    ||| c == ' '
    ||| c == '\u{85}'
    ||| c == '\u{a0}'
    ||| c == '\u{1680}'
    ||| ('\u{2000}' <= c && c <= '\u{200a}')
    ||| c == '\u{2028}'
    ||| c == '\u{2029}'
    ||| c == '\u{202f}'
    ||| c == '\u{205f}'
    ||| c == '\u{3000}'
}

pub fn is_ascii_space_char(c: char) -> (r: bool)
    ensures
        r == is_ascii_space(c),
{
    c == ' ' || c == '\t' || c == '\n' || c == '\x0C' || c == '\r'
}

pub fn is_white_space_char(c: char) -> (r: bool)
    ensures
        r == is_white_space(c),
{
    ('\t' <= c && c <= '\r') || c == ' ' || c == '\u{85}' || c == '\u{a0}' || c == '\u{1680}'
        || ('\u{2000}' <= c && c <= '\u{200a}') || c == '\u{2028}' || c == '\u{2029}'
        || c == '\u{202f}' || c == '\u{205f}' || c == '\u{3000}'
}

pub open spec fn is_digit(c: char) -> bool {
    '0' <= c && c <= '9'
}

pub open spec fn is_ascii_letter(c: char) -> bool {
    ('a' <= c && c <= 'z') || ('A' <= c && c <= 'Z')
}

/// `c` with ASCII capitals lowered, as `char::to_ascii_lowercase` does.
pub open spec fn lower(c: char) -> char {
    if 'A' <= c && c <= 'Z' {
        ((c as u32) + 32) as char
    } else {
        c
    }
}

pub open spec fn lower_all(s: Seq<char>) -> Seq<char> {
    s.map_values(|c: char| lower(c))
}

pub fn lower_char(c: char) -> (r: char)
    ensures
        r == lower(c),
{
    if 'A' <= c && c <= 'Z' {
        let b: u8 = ((c as u32) + 32) as u8;
        b as char
    } else {
        c
    }
}

/// Whether `n` is a Unicode scalar value: a code point that is not a surrogate.
pub open spec fn is_scalar(n: nat) -> bool {
    n <= 0x10ffff && !(0xd800 <= n <= 0xdfff)
}

/// The character with code point `n`, if there is one (std's `char::from_u32`).
#[verifier::external_body]
pub(crate) fn char_from_u32(n: u32) -> (r: Option<char>)
    ensures
        r is Some == is_scalar(n as nat),
        r matches Some(c) ==> c as u32 == n && c == n as char,
{
    char::from_u32(n)
}

pub fn ascii_lowercase(v: &[char]) -> (r: Vec<char>)
    ensures
        r@ == lower_all(v@),
{
    let mut r: Vec<char> = Vec::new();
    let mut i: usize = 0;
    while i < v.len()
        invariant
            i <= v.len(),
            r@ == lower_all(v@.take(i as int)),
        decreases v.len() - i,
    {
        r.push(lower_char(v[i]));
        assert(v@.take(i + 1) =~= v@.take(i as int).push(v@[i as int]));
        i += 1;
        assert(r@ =~= lower_all(v@.take(i as int)));
    }
    assert(v@.take(v.len() as int) =~= v@);
    r
}


/// `s` without leading Unicode whitespace.
pub open spec fn trim_start(s: Seq<char>) -> Seq<char>
    decreases s.len(),
{
    if s.len() > 0 && is_white_space(s[0]) {
        trim_start(s.drop_first())
    } else {
        s
    }
}

/// `s` without trailing Unicode whitespace.
pub open spec fn trim_end(s: Seq<char>) -> Seq<char>
    decreases s.len(),
{
    if s.len() > 0 && is_white_space(s.last()) {
        trim_end(s.drop_last())
    } else {
        s
    }
}

/// `s` without leading and trailing whitespace, as `str::trim` gives it.
pub open spec fn trim(s: Seq<char>) -> Seq<char> {
    trim_end(trim_start(s))
}

pub fn trimmed(v: &[char]) -> (r: Vec<char>)
    ensures
        r@ == trim(v@),
        r@.len() <= v@.len(),
{
    let mut i: usize = 0;
    assert(v@.skip(0) =~= v@);
    while i < v.len() && is_white_space_char(v[i])
        invariant
            i <= v.len(),
            trim_start(v@) == trim_start(v@.skip(i as int)),
        decreases v.len() - i,
    {
        assert(v@.skip(i as int).drop_first() =~= v@.skip(i + 1));
        i += 1;
    }
    assert(trim_start(v@) == v@.skip(i as int));
    let mut j: usize = v.len();
    while j > i && is_white_space_char(v[j - 1])
        invariant
            i <= j <= v.len(),
            trim_end(v@.skip(i as int)) == trim_end(v@.subrange(i as int, j as int)),
        decreases j,
    {
        assert(v@.subrange(i as int, j as int).drop_last() =~= v@.subrange(i as int, j - 1));
        j -= 1;
    }
    assert(v@.skip(i as int) =~= v@.subrange(i as int, v.len() as int));
    let mut r: Vec<char> = Vec::new();
    let mut k: usize = i;
    while k < j
        invariant
            i <= k <= j <= v.len(),
            r@ == v@.subrange(i as int, k as int),
        decreases j - k,
    {
        r.push(v[k]);
        k += 1;
        assert(r@ =~= v@.subrange(i as int, k as int));
    }
    r
}

/// The character sequences a vector of character vectors holds.
pub open spec fn views(v: Seq<Vec<char>>) -> Seq<Seq<char>> {
    v.map_values(|x: Vec<char>| x@)
}

/// The pieces of `s` between occurrences of `sep`, as `str::split` gives them:
/// always at least one, and empty pieces kept.
pub open spec fn split(s: Seq<char>, sep: char) -> Seq<Seq<char>>
    decreases s.len(),
{
    if s.len() == 0 {
        seq![Seq::<char>::empty()]
    } else {
        let p = split(s.drop_last(), sep);
        if s.last() == sep {
            p.push(Seq::<char>::empty())
        } else {
            p.update(p.len() - 1, p.last().push(s.last()))
        }
    }
}

pub proof fn lemma_split_nonempty(s: Seq<char>, sep: char)
    ensures
        split(s, sep).len() >= 1,
    decreases s.len(),
{
    if s.len() > 0 {
        lemma_split_nonempty(s.drop_last(), sep);
    }
}

/// A text without the separator splits into itself alone.
pub proof fn lemma_split_without_sep(x: Seq<char>, sep: char)
    requires
        !x.contains(sep),
    ensures
        split(x, sep) == seq![x],
    decreases x.len(),
{
    if x.len() > 0 {
        assert(x.drop_last().contains(sep) ==> x.contains(sep)) by {
            if x.drop_last().contains(sep) {
                let k = choose|k: int| 0 <= k < x.drop_last().len() && x.drop_last()[k] == sep;
                assert(x[k] == sep);
            }
        }
        lemma_split_without_sep(x.drop_last(), sep);
        assert(x.last() != sep) by {
            assert(x[x.len() - 1] == x.last());
        }
        assert(x.drop_last().push(x.last()) =~= x);
    } else {
        assert(x =~= Seq::<char>::empty());
    }
}

pub fn split_at_char(v: &[char], sep: char) -> (r: Vec<Vec<char>>)
    ensures
        views(r@) == split(v@, sep),
        r@.len() >= 1,
        r@.len() <= v@.len() + 1,
        forall|k: int| 0 <= k < r@.len() ==> (#[trigger] r@[k])@.len() <= v@.len(),
{
    let mut done: Vec<Vec<char>> = Vec::new();
    let mut cur: Vec<char> = Vec::new();
    let mut i: usize = 0;
    while i < v.len()
        invariant
            i <= v.len(),
            views(done@).push(cur@) == split(v@.take(i as int), sep),
            cur@.len() <= i,
            done@.len() <= i,
            forall|k: int| 0 <= k < done@.len() ==> (#[trigger] done@[k])@.len() <= i,
        decreases v.len() - i,
    {
        let ghost before = views(done@).push(cur@);
        assert(v@.take(i + 1).drop_last() =~= v@.take(i as int));
        if v[i] == sep {
            done.push(cur);
            cur = Vec::new();
            assert(views(done@).push(cur@) =~= before.push(Seq::<char>::empty()));
        } else {
            cur.push(v[i]);
            assert(views(done@).push(cur@) =~= before.update(
                before.len() - 1,
                before.last().push(v@[i as int]),
            ));
        }
        i += 1;
    }
    assert(v@.take(v.len() as int) =~= v@);
    done.push(cur);
    done
}

/// The non-empty runs of non-whitespace in `s`, as `str::split_whitespace` gives them.
pub open spec fn words(s: Seq<char>) -> Seq<Seq<char>> {
    words_fold(s).0
}

/// The words so far and the word being read.
pub open spec fn words_fold(s: Seq<char>) -> (Seq<Seq<char>>, Seq<char>)
    decreases s.len(),
{
    if s.len() == 0 {
        (Seq::empty(), Seq::empty())
    } else {
        let (done, cur) = words_fold(s.drop_last());
        if is_white_space(s.last()) {
            (done, Seq::empty())
        } else if cur.len() == 0 {
            (done.push(seq![s.last()]), seq![s.last()])
        } else {
            (done.update(done.len() - 1, cur.push(s.last())), cur.push(s.last()))
        }
    }
}

pub proof fn lemma_words_fold(s: Seq<char>)
    ensures
        words_fold(s).1.len() > 0 ==> words_fold(s).0.len() > 0 && words_fold(s).0.last()
            == words_fold(s).1,
    decreases s.len(),
{
    if s.len() > 0 {
        lemma_words_fold(s.drop_last());
    }
}

pub fn split_words(v: &[char]) -> (r: Vec<Vec<char>>)
    ensures
        views(r@) == words(v@),
{
    let mut done: Vec<Vec<char>> = Vec::new();
    let mut cur: Vec<char> = Vec::new();
    let mut i: usize = 0;
    while i < v.len()
        invariant
            i <= v.len(),
            cur@.len() > 0 ==> views(done@).push(cur@) == words_fold(v@.take(i as int)).0,
            cur@.len() == 0 ==> views(done@) == words_fold(v@.take(i as int)).0,
            cur@ == words_fold(v@.take(i as int)).1,
        decreases v.len() - i,
    {
        assert(v@.take(i + 1).drop_last() =~= v@.take(i as int));
        let ghost d = views(done@);
        if is_white_space_char(v[i]) {
            if cur.len() > 0 {
                done.push(cur);
                cur = Vec::new();
            }
        } else {
            cur.push(v[i]);
            if cur.len() == 1 {
                assert(views(done@).push(cur@) =~= d.push(seq![v@[i as int]]));
            } else {
                assert(views(done@).push(cur@) =~= d.push(cur@));
                assert(d.push(cur@.drop_last()).update(d.len() as int, cur@) =~= d.push(cur@));
            }
        }
        i += 1;
    }
    assert(v@.take(v.len() as int) =~= v@);
    if cur.len() > 0 {
        done.push(cur);
    }
    done
}


/// The ASCII digit for `d < 10`.
pub open spec fn digit_char(d: nat) -> char {
    ((d + 48) as u32) as char
}

/// `n` written in decimal, as `Display` for unsigned integers writes it.
pub open spec fn decimal(n: nat) -> Seq<char>
    decreases n,
{
    if n < 10 {
        seq![digit_char(n)]
    } else {
        decimal(n / 10).push(digit_char(n % 10))
    }
}

/// A number written in decimal is one or more ASCII digits that spell it.
pub proof fn lemma_decimal_digits(n: nat)
    ensures
        decimal(n).len() > 0,
        all_digits(decimal(n)),
        digits_value(decimal(n)) == n,
    decreases n,
{
    let c = digit_char(n % 10);
    assert((c as u32) == (n % 10) + 48);
    assert(is_digit(c));
    if n < 10 {
        assert(decimal(n).drop_last() =~= Seq::<char>::empty());
        assert(decimal(n).last() == c);
        assert(digits_value(decimal(n).drop_last()) == 0);
        assert(digits_value(decimal(n)) == n);
    } else {
        lemma_decimal_digits(n / 10);
        let s = decimal(n / 10);
        let d = decimal(n);
        assert(d.drop_last() =~= s);
        assert(d.last() == c);
        assert((n / 10) * 10 + n % 10 == n) by (nonlinear_arith);
        assert(digits_value(d) == digits_value(s) * 10 + ((c as u32) - 48) as nat);
        assert(digits_value(d) == n);
        assert forall|i: int| 0 <= i < d.len() implies is_digit(#[trigger] d[i]) by {
            if i < s.len() {
                assert(d[i] == s[i]);
            }
        }
    }
}

/// Parsing a number written in decimal gives it back.
pub proof fn lemma_parse_decimal(n: nat, max: nat)
    requires
        n <= max,
    ensures
        parse_unsigned(decimal(n), max) == Some(n),
{
    lemma_decimal_digits(n);
    assert(is_digit(decimal(n)[0]));
}

fn digit_of(d: u64) -> (c: char)
    requires
        d < 10,
    ensures
        c == digit_char(d as nat),
{
    let b: u8 = 48 + d as u8;
    b as char
}

/// `n` in decimal.
pub fn decimal_chars(n: u64) -> (r: Vec<char>)
    ensures
        r@ == decimal(n as nat),
    decreases n,
{
    if n < 10 {
        let mut v: Vec<char> = Vec::new();
        v.push(digit_of(n));
        assert(v@ =~= seq![digit_char(n as nat)]);
        v
    } else {
        let mut v = decimal_chars(n / 10);
        v.push(digit_of(n % 10));
        v
    }
}

/// Appends `n` in decimal to `out`.
pub fn push_decimal(out: &mut Vec<char>, n: u64)
    ensures
        final(out)@ == old(out)@ + decimal(n as nat),
{
    let d = decimal_chars(n);
    push_all(out, &d);
}

/// Appends the characters of `s` to `out`.
pub fn push_all(out: &mut Vec<char>, s: &[char])
    ensures
        final(out)@ == old(out)@ + s@,
{
    let ghost start = out@;
    let mut i: usize = 0;
    while i < s.len()
        invariant
            i <= s.len(),
            out@ == start + s@.take(i as int),
        decreases s.len() - i,
    {
        out.push(s[i]);
        i += 1;
        assert(out@ =~= start + s@.take(i as int));
    }
    assert(s@.take(s.len() as int) =~= s@);
}

/// Appends the characters of `lit` to `out`.
pub fn push_str(out: &mut Vec<char>, lit: &str)
    ensures
        final(out)@ == old(out)@ + lit@,
{
    let w = chars_of(lit);
    push_all(out, &w);
}

pub open spec fn all_digits(s: Seq<char>) -> bool {
    forall|i: int| 0 <= i < s.len() ==> is_digit(#[trigger] s[i])
}

/// The number that a run of ASCII digits spells.
pub open spec fn digits_value(s: Seq<char>) -> nat
    decreases s.len(),
{
    if s.len() == 0 {
        0
    } else {
        digits_value(s.drop_last()) * 10 + ((s.last() as u32) - 48) as nat
    }
}

/// What `str::parse` gives for an unsigned integer type whose largest value is
/// `max`: an optional `+`, then one or more ASCII digits, the number at most `max`.
pub open spec fn parse_unsigned(s: Seq<char>, max: nat) -> Option<nat> {
    let body = if s.len() > 0 && s[0] == '+' {
        s.drop_first()
    } else {
        s
    };
    if body.len() > 0 && all_digits(body) && digits_value(body) <= max {
        Some(digits_value(body))
    } else {
        None
    }
}

proof fn lemma_digits_value_prefix(s: Seq<char>, k: int)
    requires
        all_digits(s),
        0 <= k <= s.len(),
    ensures
        digits_value(s.take(k)) <= digits_value(s),
    decreases s.len(),
{
    if k < s.len() {
        assert(all_digits(s.drop_last()));
        lemma_digits_value_prefix(s.drop_last(), k);
        assert(s.drop_last().take(k) =~= s.take(k));
    } else {
        assert(s.take(k) =~= s);
    }
}

/// Parses `v` as `str::parse` does for an unsigned integer type with largest value `max`.
pub fn parse_unsigned_chars(v: &[char], max: u64) -> (r: Option<u64>)
    ensures
        match r {
            Some(n) => parse_unsigned(v@, max as nat) == Some(n as nat),
            None => parse_unsigned(v@, max as nat).is_none(),
        },
{
    let start: usize = if v.len() > 0 && v[0] == '+' { 1 } else { 0 };
    let ghost body = if v@.len() > 0 && v@[0] == '+' { v@.drop_first() } else { v@ };
    assert(body =~= v@.skip(start as int));
    if start >= v.len() {
        return None;
    }
    let mut value: u64 = 0;
    let mut i: usize = start;
    while i < v.len()
        invariant
            start <= i <= v.len(),
            body == v@.skip(start as int),
            body == (if v@.len() > 0 && v@[0] == '+' { v@.drop_first() } else { v@ }),
            value as nat == digits_value(body.take(i - start)),
            value <= max,
            all_digits(body.take(i - start)),
        decreases v.len() - i,
    {
        let c = v[i];
        if c < '0' || c > '9' {
            assert(body[i - start] == c);
            assert(!all_digits(body));
            return None;
        }
        let d: u64 = (c as u32 - 48) as u64;
        assert(body.take(i - start + 1).drop_last() =~= body.take(i - start));
        assert(body.take(i - start + 1).last() == c);
        if d > max || value > (max - d) / 10 {
            proof {
                assert(value * 10 + d > max) by (nonlinear_arith)
                    requires
                        d > max || value > (max - d) / 10,
                        d <= 9,
                ;
                if all_digits(body) {
                    lemma_digits_value_prefix(body, i - start + 1);
                }
            }
            return None;
        }
        assert(value * 10 + d <= max) by (nonlinear_arith)
            requires
                value <= (max - d) / 10,
                d <= max,
        ;
        value = value * 10 + d;
        i += 1;
        assert(all_digits(body.take(i - start)));
    }
    assert(body.take(i - start) =~= body);
    Some(value)
}


/// Whether `pat` occurs in `s` at index `i`.
pub open spec fn occurs_at(s: Seq<char>, pat: Seq<char>, i: int) -> bool {
    0 <= i && i + pat.len() <= s.len() && s.subrange(i, i + pat.len()) == pat
}

/// The index of the first occurrence of `pat` in `s`, as `str::find` gives it
/// (counted in characters).
pub open spec fn find_str(s: Seq<char>, pat: Seq<char>) -> Option<int>
    decreases s.len(),
{
    if s.len() < pat.len() {
        None
    } else if s.take(pat.len() as int) == pat {
        Some(0)
    } else if s.len() == 0 {
        None
    } else {
        match find_str(s.drop_first(), pat) {
            Some(i) => Some(i + 1),
            None => None,
        }
    }
}

/// `find_str` is the first occurrence.
pub proof fn lemma_find_str(s: Seq<char>, pat: Seq<char>)
    ensures
        match find_str(s, pat) {
            Some(i) => occurs_at(s, pat, i) && forall|k: int| 0 <= k < i ==> !occurs_at(s, pat, k),
            None => forall|k: int| !occurs_at(s, pat, k),
        },
    decreases s.len(),
{
    assert(s.take(pat.len() as int) =~= s.subrange(0, pat.len() as int));
    if s.len() < pat.len() {
    } else if s.take(pat.len() as int) == pat {
    } else if s.len() == 0 {
    } else {
        let t = s.drop_first();
        lemma_find_str(t, pat);
        assert forall|k: int| #[trigger] occurs_at(t, pat, k) == occurs_at(s, pat, k + 1) by {
            if 0 <= k && k + pat.len() <= t.len() {
                assert(t.subrange(k, k + pat.len()) =~= s.subrange(k + 1, k + 1 + pat.len()));
            }
        }
        match find_str(t, pat) {
            Some(i) => {
                assert(occurs_at(s, pat, i + 1));
                assert forall|k: int| 0 <= k < i + 1 implies !occurs_at(s, pat, k) by {
                    if k > 0 {
                        assert(!occurs_at(t, pat, k - 1));
                    }
                }
            },
            None => {
                assert forall|k: int| !occurs_at(s, pat, k) by {
                    if k > 0 {
                        assert(!occurs_at(t, pat, k - 1));
                    }
                }
            },
        }
    }
}

/// Whether `pat` occurs in `v` at `i`.
pub fn matches_at(v: &[char], i: usize, pat: &[char]) -> (r: bool)
    ensures
        r == occurs_at(v@, pat@, i as int),
{
    if i > v.len() || v.len() - i < pat.len() {
        return false;
    }
    let mut k: usize = 0;
    while k < pat.len()
        invariant
            k <= pat.len(),
            i + pat.len() <= v.len(),
            forall|j: int| 0 <= j < k ==> v@[i + j] == pat@[j],
        decreases pat.len() - k,
    {
        if v[i + k] != pat[k] {
            assert(v@.subrange(i as int, i + pat.len())[k as int] != pat@[k as int]);
            return false;
        }
        k += 1;
    }
    assert(v@.subrange(i as int, i + pat.len()) =~= pat@);
    true
}

/// The first occurrence of `pat` in `v` at or after `from`.
pub fn find_from(v: &[char], from: usize, pat: &[char]) -> (r: Option<usize>)
    requires
        from <= v.len(),
    ensures
        match r {
            Some(i) => from <= i && occurs_at(v@, pat@, i as int) && forall|k: int|
                from <= k < i ==> !occurs_at(v@, pat@, k),
            None => forall|k: int| from <= k ==> !occurs_at(v@, pat@, k),
        },
{
    let mut i: usize = from;
    while i < v.len() && v.len() - i >= pat.len()
        invariant
            from <= i <= v.len(),
            forall|k: int| from <= k < i ==> !occurs_at(v@, pat@, k),
        decreases v.len() - i,
    {
        if matches_at(v, i, pat) {
            return Some(i);
        }
        i += 1;
    }
    if i == v.len() && pat.len() == 0 {
        assert(v@.subrange(i as int, i as int) =~= pat@);
        return Some(i);
    }
    None
}

/// `find_str` on what follows `from`, as index into the whole of `v`.
pub fn find_in(v: &[char], from: usize, pat: &[char]) -> (r: Option<usize>)
    requires
        from <= v.len(),
    ensures
        match r {
            Some(i) => from <= i && i + pat@.len() <= v@.len() && find_str(v@.skip(from as int), pat@)
                == Some(i - from),
            None => find_str(v@.skip(from as int), pat@) is None,
        },
{
    let r = find_from(v, from, pat);
    proof {
        let t = v@.skip(from as int);
        lemma_find_str(t, pat@);
        assert forall|k: int| 0 <= k implies #[trigger] occurs_at(t, pat@, k) == occurs_at(v@, pat@, k + from) by {
            if 0 <= k && k + pat@.len() <= t.len() {
                assert(t.subrange(k, k + pat@.len()) =~= v@.subrange(k + from, k + from + pat@.len()));
            }
        }
        match find_str(t, pat@) {
            Some(j) => {
                match r {
                    Some(i) => {
                        assert(occurs_at(t, pat@, i - from));
                        if j < i - from {
                            assert(occurs_at(v@, pat@, j + from));
                        }
                        if i - from < j {
                            assert(!occurs_at(t, pat@, i - from));
                        }
                    },
                    None => {
                        assert(occurs_at(v@, pat@, j + from));
                    },
                }
            },
            None => {
                match r {
                    Some(i) => {
                        assert(occurs_at(t, pat@, i - from));
                    },
                    None => {},
                }
            },
        }
    }
    r
}

/// The characters of `v` from `a` up to `b`.
pub fn slice(v: &[char], a: usize, b: usize) -> (r: Vec<char>)
    requires
        a <= b <= v.len(),
    ensures
        r@ == v@.subrange(a as int, b as int),
{
    let mut r: Vec<char> = Vec::new();
    let mut k: usize = a;
    while k < b
        invariant
            a <= k <= b <= v.len(),
            r@ == v@.subrange(a as int, k as int),
        decreases b - k,
    {
        r.push(v[k]);
        k += 1;
        assert(r@ =~= v@.subrange(a as int, k as int));
    }
    r
}

/// The UTF-8 encoding of one character.
pub open spec fn utf8_char(c: char) -> Seq<u8> {
    let n = c as u32 as int;
    if n < 0x80 {
        seq![n as u8]
    } else if n < 0x800 {
        seq![(0xC0 + n / 64) as u8, (0x80 + n % 64) as u8]
    } else if n < 0x10000 {
        seq![(0xE0 + n / 4096) as u8, (0x80 + (n / 64) % 64) as u8, (0x80 + n % 64) as u8]
    } else {
        seq![(0xF0 + n / 262144) as u8, (0x80 + (n / 4096) % 64) as u8, (0x80 + (n / 64) % 64) as u8, (0x80 + n % 64) as u8]
    }
}

/// The UTF-8 encoding of `s`.
pub open spec fn utf8(s: Seq<char>) -> Seq<u8>
    decreases s.len(),
{
    if s.len() == 0 {
        Seq::empty()
    } else {
        utf8(s.drop_last()) + utf8_char(s.last())
    }
}

/// The UTF-8 bytes of `v`.
pub fn utf8_bytes(v: &[char]) -> (r: Vec<u8>)
    ensures
        r@ == utf8(v@),
{
    let mut out: Vec<u8> = Vec::new();
    let mut i: usize = 0;
    while i < v.len()
        invariant
            i <= v.len(),
            out@ == utf8(v@.take(i as int)),
        decreases v.len() - i,
    {
        let n = v[i] as u32;
        let ghost before = out@;
        let ghost c = v@[i as int];
        assert(c as u32 as int == n as int);
        if n < 0x80 {
            out.push(n as u8);
        } else if n < 0x800 {
            out.push((0xC0 + n / 64) as u8);
            out.push((0x80 + n % 64) as u8);
        } else if n < 0x10000 {
            out.push((0xE0 + n / 4096) as u8);
            out.push((0x80 + (n / 64) % 64) as u8);
            out.push((0x80 + n % 64) as u8);
        } else {
            out.push((0xF0 + n / 262144) as u8);
            out.push((0x80 + (n / 4096) % 64) as u8);
            out.push((0x80 + (n / 64) % 64) as u8);
            out.push((0x80 + n % 64) as u8);
        }
        assert(out@ =~= before + utf8_char(v@[i as int]));
        assert(v@.take(i + 1).drop_last() =~= v@.take(i as int));
        i += 1;
    }
    assert(v@.take(v.len() as int) =~= v@);
    out
}

/// The bytes of `v` from `a` up to `b`.
pub fn slice_bytes(v: &[u8], a: usize, b: usize) -> (r: Vec<u8>)
    requires
        a <= b <= v.len(),
    ensures
        r@ == v@.subrange(a as int, b as int),
{
    let mut r: Vec<u8> = Vec::new();
    let mut k: usize = a;
    while k < b
        invariant
            a <= k <= b <= v.len(),
            r@ == v@.subrange(a as int, k as int),
        decreases b - k,
    {
        r.push(v[k]);
        k += 1;
        assert(r@ =~= v@.subrange(a as int, k as int));
    }
    r
}

/// `s` with every occurrence of `pat` removed, scanning left to right as
/// `str::replace(pat, "")` does.
pub open spec fn remove_all(s: Seq<char>, pat: Seq<char>) -> Seq<char>
    recommends
        pat.len() > 0,
    decreases s.len(),
{
    if s.len() == 0 || pat.len() == 0 {
        s
    } else if s.len() >= pat.len() && s.take(pat.len() as int) == pat {
        remove_all(s.skip(pat.len() as int), pat)
    } else {
        seq![s[0]] + remove_all(s.drop_first(), pat)
    }
}

pub fn remove_all_of(v: &[char], pat: &[char]) -> (r: Vec<char>)
    requires
        pat@.len() > 0,
    ensures
        r@ == remove_all(v@, pat@),
{
    let mut out: Vec<char> = Vec::new();
    let mut i: usize = 0;
    assert(v@.skip(0) =~= v@);
    while i < v.len()
        invariant
            i <= v.len(),
            pat@.len() > 0,
            out@ + remove_all(v@.skip(i as int), pat@) == remove_all(v@, pat@),
        decreases v.len() - i,
    {
        let ghost t = v@.skip(i as int);
        if matches_at(v, i, pat) {
            assert(t.take(pat@.len() as int) =~= v@.subrange(i as int, i + pat@.len()));
            assert(t.skip(pat@.len() as int) =~= v@.skip(i + pat.len()));
            i += pat.len();
        } else {
            assert(t.take(pat@.len() as int) =~= v@.subrange(i as int, i + pat@.len())
                || t.len() < pat@.len());
            assert(t.drop_first() =~= v@.skip(i + 1));
            let ghost before = out@;
            out.push(v[i]);
            assert(out@ + remove_all(v@.skip(i + 1), pat@) =~= before + (seq![v@[i as int]]
                + remove_all(v@.skip(i + 1), pat@)));
            i += 1;
        }
    }
    assert(v@.skip(i as int) =~= Seq::<char>::empty());
    assert(out@ + Seq::<char>::empty() =~= out@);
    out
}


/// `s` with every occurrence of `pat` replaced by `with`, scanning left to
/// right as `str::replace` does.
pub open spec fn replace_all(s: Seq<char>, pat: Seq<char>, with: Seq<char>) -> Seq<char>
    recommends
        pat.len() > 0,
    decreases s.len(),
{
    if s.len() == 0 || pat.len() == 0 {
        s
    } else if s.len() >= pat.len() && s.take(pat.len() as int) == pat {
        with + replace_all(s.skip(pat.len() as int), pat, with)
    } else {
        seq![s[0]] + replace_all(s.drop_first(), pat, with)
    }
}

pub fn replace_all_of(v: &[char], pat: &[char], with: &[char]) -> (r: Vec<char>)
    requires
        pat@.len() > 0,
    ensures
        r@ == replace_all(v@, pat@, with@),
{
    let mut out: Vec<char> = Vec::new();
    let mut i: usize = 0;
    assert(v@.skip(0) =~= v@);
    while i < v.len()
        invariant
            i <= v.len(),
            pat@.len() > 0,
            out@ + replace_all(v@.skip(i as int), pat@, with@) == replace_all(v@, pat@, with@),
        decreases v.len() - i,
    {
        let ghost t = v@.skip(i as int);
        let ghost before = out@;
        if matches_at(v, i, pat) {
            assert(t.take(pat@.len() as int) =~= v@.subrange(i as int, i + pat@.len()));
            assert(t.skip(pat@.len() as int) =~= v@.skip(i + pat.len()));
            push_all(&mut out, with);
            assert(out@ + replace_all(v@.skip(i + pat.len()), pat@, with@) =~= before + (with@
                + replace_all(v@.skip(i + pat.len()), pat@, with@)));
            i += pat.len();
        } else {
            assert(t.take(pat@.len() as int) =~= v@.subrange(i as int, i + pat@.len())
                || t.len() < pat@.len());
            assert(t.drop_first() =~= v@.skip(i + 1));
            out.push(v[i]);
            assert(out@ + replace_all(v@.skip(i + 1), pat@, with@) =~= before + (seq![v@[i as int]]
                + replace_all(v@.skip(i + 1), pat@, with@)));
            i += 1;
        }
    }
    assert(v@.skip(i as int) =~= Seq::<char>::empty());
    assert(out@ + Seq::<char>::empty() =~= out@);
    out
}

/// What `str::to_lowercase` gives for `s` (full Unicode lowercasing).
pub uninterp spec fn lowercase(s: Seq<char>) -> Seq<char>;

/// Whether every character of `s` is ASCII.
pub open spec fn is_ascii_text(s: Seq<char>) -> bool {
    forall|i: int| 0 <= i < s.len() ==> (#[trigger] s[i] as u32) < 128
}

/// std's `str::to_lowercase`. The contract names the result `lowercase`;
/// of ASCII text it states that the result is the text with its capitals
/// A to Z lowered, each other character kept, as Unicode's lowercase
/// mapping has it for ASCII. What non-ASCII characters become is left to
/// std.
#[verifier::external_body]
pub(crate) fn to_lowercase(s: &str) -> (r: String)
    ensures
        r@ == lowercase(s@),
        is_ascii_text(s@) ==> r@ == lower_all(s@),
{
    s.to_lowercase()
}

/// `v` lowered as `str::to_lowercase` lowers it.
pub fn lowercased(v: &[char]) -> (r: Vec<char>)
    ensures
        r@ == lowercase(v@),
        is_ascii_text(v@) ==> r@ == lower_all(v@),
{
    let s = string_of(v);
    let l = to_lowercase(s.as_str());
    chars_of(l.as_str())
}

} // verus!
