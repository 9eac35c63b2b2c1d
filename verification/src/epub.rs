//! HTML to terminal text: tags become line breaks, list markers and ANSI
//! styles; character references are decoded once.

use vstd::prelude::*;
use crate::text::{eq_chars, decimal, is_ascii_letter, is_ascii_space, is_ascii_text, lower_all, lowercase, lowercased, push_decimal, split_words, views, words, words_fold, is_white_space, is_ascii_space_char, occurs_at, string_of, chars_of, eq_str, find_in, find_str, is_scalar, lemma_find_str, parse_unsigned, parse_unsigned_chars, push_all, push_str, slice, char_from_u32};

verus! {

/// Bytes the UTF-8 encoding of `c` takes.
pub open spec fn utf8_len(c: char) -> nat {
    if (c as u32) < 0x80 {
        1
    } else if (c as u32) < 0x800 {
        2
    } else if (c as u32) < 0x10000 {
        3
    } else {
        4
    }
}

/// Bytes the UTF-8 encoding of `s` takes.
pub open spec fn utf8_size(s: Seq<char>) -> nat
    decreases s.len(),
{
    if s.len() == 0 {
        0
    } else {
        utf8_size(s.drop_last()) + utf8_len(s.last())
    }
}

fn char_utf8_len(c: char) -> (n: usize)
    ensures
        n == utf8_len(c),
{
    let v = c as u32;
    if v < 0x80 {
        1
    } else if v < 0x800 {
        2
    } else if v < 0x10000 {
        3
    } else {
        4
    }
}

/// The position of the `;` that ends a reference whose name starts `s`:
/// the first `;` at or after `i` that lies within 32 bytes.
pub open spec fn semicolon_from(s: Seq<char>, i: int) -> Option<int>
    decreases s.len() - i,
{
    if i < 0 || i >= s.len() || utf8_size(s.take(i)) >= 32 {
        None
    } else if s[i] == ';' {
        Some(i)
    } else {
        semicolon_from(s, i + 1)
    }
}

pub proof fn lemma_semicolon_bounds(s: Seq<char>, i: int)
    ensures
        semicolon_from(s, i) matches Some(e) ==> i <= e < s.len() && s[e] == ';',
    decreases s.len() - i,
{
    if 0 <= i < s.len() && utf8_size(s.take(i)) < 32 && s[i] != ';' {
        lemma_semicolon_bounds(s, i + 1);
    }
}

/// The value of a hexadecimal digit.
pub open spec fn hex_value(c: char) -> int {
    if '0' <= c && c <= '9' {
        (c as u32 - 48) as int
    } else if 'a' <= c && c <= 'f' {
        (c as u32 - 87) as int
    } else if 'A' <= c && c <= 'F' {
        (c as u32 - 55) as int
    } else {
        -1
    }
}

pub open spec fn is_hex(c: char) -> bool {
    hex_value(c) >= 0
}

pub open spec fn hex_digits_value(s: Seq<char>) -> nat
    decreases s.len(),
{
    if s.len() == 0 {
        0
    } else {
        hex_digits_value(s.drop_last()) * 16 + hex_value(s.last()) as nat
    }
}

/// What `u32::from_str_radix(s, 16)` gives: an optional `+`, then one or
/// more hexadecimal digits, at most `u32::MAX`.
pub open spec fn parse_hex(s: Seq<char>) -> Option<nat> {
    parse_hex_digits(if s.len() > 0 && s[0] == '+' { s.drop_first() } else { s })
}

pub open spec fn all_hex(s: Seq<char>) -> bool {
    forall|i: int| 0 <= i < s.len() ==> is_hex(#[trigger] s[i])
}

pub open spec fn parse_hex_digits(body: Seq<char>) -> Option<nat> {
    if body.len() > 0 && all_hex(body) && hex_digits_value(body) <= 0xffff_ffff {
        Some(hex_digits_value(body))
    } else {
        None
    }
}

proof fn lemma_hex_value_prefix(s: Seq<char>, k: int)
    requires
        forall|i: int| 0 <= i < s.len() ==> is_hex(#[trigger] s[i]),
        0 <= k <= s.len(),
    ensures
        hex_digits_value(s.take(k)) <= hex_digits_value(s),
    decreases s.len(),
{
    if k < s.len() {
        lemma_hex_value_prefix(s.drop_last(), k);
        assert(s.drop_last().take(k) =~= s.take(k));
    } else {
        assert(s.take(k) =~= s);
    }
}

fn hex_digit(c: char) -> (r: Option<u64>)
    ensures
        match r {
            Some(d) => is_hex(c) && d == hex_value(c),
            None => !is_hex(c),
        },
{
    if '0' <= c && c <= '9' {
        Some((c as u32 - 48) as u64)
    } else if 'a' <= c && c <= 'f' {
        Some((c as u32 - 87) as u64)
    } else if 'A' <= c && c <= 'F' {
        Some((c as u32 - 55) as u64)
    } else {
        None
    }
}

fn parse_hex_chars(v: &[char]) -> (r: Option<u64>)
    ensures
        match r {
            Some(n) => parse_hex(v@) == Some(n as nat),
            None => parse_hex(v@) is None,
        },
{
    let start: usize = if v.len() > 0 && v[0] == '+' { 1 } else { 0 };
    let ghost body = if v@.len() > 0 && v@[0] == '+' { v@.drop_first() } else { v@ };
    assert(body =~= v@.skip(start as int));
    if start >= v.len() {
        return None;
    }
    let mut value: u64 = 0;
    let mut i: usize = start;
    while i < v.len()
        invariant
            start <= i <= v.len(),
            body == v@.skip(start as int),
            body == (if v@.len() > 0 && v@[0] == '+' { v@.drop_first() } else { v@ }),
            value as nat == hex_digits_value(body.take(i - start)),
            value <= 0xffff_ffff,
            forall|j: int| 0 <= j < i - start ==> is_hex(#[trigger] body[j]),
        decreases v.len() - i,
    {
        let c = v[i];
        assert(body[i - start] == c);
        match hex_digit(c) {
            None => {
                assert(!is_hex(body[i - start]));
                return None;
            },
            Some(d) => {
                assert(body.take(i - start + 1).drop_last() =~= body.take(i - start));
                assert(body.take(i - start + 1).last() == c);
                assert(hex_digits_value(body.take(i - start + 1)) == value * 16 + d);
                if value > (0xffff_ffff - d) / 16 {
                    proof {
                        assert(value * 16 + d > 0xffff_ffff) by (nonlinear_arith)
                            requires
                                value > (0xffff_ffff - d) / 16,
                                d <= 15,
                        ;
                        if all_hex(body) {
                            lemma_hex_value_prefix(body, i - start + 1);
                        }
                    }
                    return None;
                }
                assert(value * 16 + d <= 0xffff_ffff) by (nonlinear_arith)
                    requires
                        value <= (0xffff_ffff - d) / 16,
                        d <= 15,
                ;
                value = value * 16 + d;
                i += 1;
            },
        }
    }
    assert(body.take(i - start) =~= body);
    Some(value)
}

/// The text a named character reference stands for.
pub open spec fn named_entity(name: Seq<char>) -> Option<Seq<char>> {
    if name == "amp"@ {
        Some("&"@)
    } else if name == "lt"@ {
        Some("<"@)
    } else if name == "gt"@ {
        Some(">"@)
    } else if name == "quot"@ {
        Some("\""@)
    } else if name == "apos"@ {
        Some("'"@)
    } else if name == "nbsp"@ {
        Some("\u{a0}"@)
    } else if name == "shy"@ {
        Some(""@)
    } else if name == "ensp"@ {
        Some(" "@)
    } else if name == "emsp"@ {
        Some(" "@)
    } else if name == "thinsp"@ {
        Some(" "@)
    } else if name == "lsquo"@ {
        Some("‘"@)
    } else if name == "rsquo"@ {
        Some("’"@)
    } else if name == "sbquo"@ {
        Some("‚"@)
    } else if name == "ldquo"@ {
        Some("“"@)
    } else if name == "rdquo"@ {
        Some("”"@)
    } else if name == "bdquo"@ {
        Some("„"@)
    } else if name == "laquo"@ {
        Some("«"@)
    } else if name == "raquo"@ {
        Some("»"@)
    } else if name == "lsaquo"@ {
        Some("‹"@)
    } else if name == "rsaquo"@ {
        Some("›"@)
    } else if name == "ndash"@ {
        Some("–"@)
    } else if name == "mdash"@ {
        Some("—"@)
    } else if name == "hellip"@ {
        Some("…"@)
    } else if name == "bull"@ {
        Some("•"@)
    } else if name == "middot"@ {
        Some("·"@)
    } else if name == "prime"@ {
        Some("′"@)
    } else if name == "Prime"@ {
        Some("″"@)
    } else if name == "deg"@ {
        Some("°"@)
    } else if name == "times"@ {
        Some("×"@)
    } else if name == "divide"@ {
        Some("÷"@)
    } else if name == "copy"@ {
        Some("©"@)
    } else if name == "reg"@ {
        Some("®"@)
    } else if name == "trade"@ {
        Some("™"@)
    } else if name == "sect"@ {
        Some("§"@)
    } else if name == "para"@ {
        Some("¶"@)
    } else if name == "dagger"@ {
        Some("†"@)
    } else if name == "Dagger"@ {
        Some("‡"@)
    } else if name == "iexcl"@ {
        Some("¡"@)
    } else if name == "iquest"@ {
        Some("¿"@)
    } else {
        None
    }
}

fn named_entity_text(name: &[char]) -> (r: Option<&'static str>)
    ensures
        match r {
            Some(t) => named_entity(name@) == Some(t@),
            None => named_entity(name@) is None,
        },
{
    if eq_str(name, "amp") {
        Some("&")
    } else if eq_str(name, "lt") {
        Some("<")
    } else if eq_str(name, "gt") {
        Some(">")
    } else if eq_str(name, "quot") {
        Some("\"")
    } else if eq_str(name, "apos") {
        Some("'")
    } else if eq_str(name, "nbsp") {
        Some("\u{a0}")
    } else if eq_str(name, "shy") {
        Some("")
    } else if eq_str(name, "ensp") {
        Some(" ")
    } else if eq_str(name, "emsp") {
        Some(" ")
    } else if eq_str(name, "thinsp") {
        Some(" ")
    } else if eq_str(name, "lsquo") {
        Some("‘")
    } else if eq_str(name, "rsquo") {
        Some("’")
    } else if eq_str(name, "sbquo") {
        Some("‚")
    } else if eq_str(name, "ldquo") {
        Some("“")
    } else if eq_str(name, "rdquo") {
        Some("”")
    } else if eq_str(name, "bdquo") {
        Some("„")
    } else if eq_str(name, "laquo") {
        Some("«")
    } else if eq_str(name, "raquo") {
        Some("»")
    } else if eq_str(name, "lsaquo") {
        Some("‹")
    } else if eq_str(name, "rsaquo") {
        Some("›")
    } else if eq_str(name, "ndash") {
        Some("–")
    } else if eq_str(name, "mdash") {
        Some("—")
    } else if eq_str(name, "hellip") {
        Some("…")
    } else if eq_str(name, "bull") {
        Some("•")
    } else if eq_str(name, "middot") {
        Some("·")
    } else if eq_str(name, "prime") {
        Some("′")
    } else if eq_str(name, "Prime") {
        Some("″")
    } else if eq_str(name, "deg") {
        Some("°")
    } else if eq_str(name, "times") {
        Some("×")
    } else if eq_str(name, "divide") {
        Some("÷")
    } else if eq_str(name, "copy") {
        Some("©")
    } else if eq_str(name, "reg") {
        Some("®")
    } else if eq_str(name, "trade") {
        Some("™")
    } else if eq_str(name, "sect") {
        Some("§")
    } else if eq_str(name, "para") {
        Some("¶")
    } else if eq_str(name, "dagger") {
        Some("†")
    } else if eq_str(name, "Dagger") {
        Some("‡")
    } else if eq_str(name, "iexcl") {
        Some("¡")
    } else if eq_str(name, "iquest") {
        Some("¿")
    } else {
        None
    }
}

/// The text a character reference `&name;` stands for: a decimal (`#n`) or
/// hexadecimal (`#xn`) code point that is a character, or a known name.
pub open spec fn entity_text(name: Seq<char>) -> Option<Seq<char>> {
    if name.len() > 0 && name[0] == '#' {
        let num = name.drop_first();
        let code = if num.len() > 0 && (num[0] == 'x' || num[0] == 'X') {
            parse_hex(num.drop_first())
        } else {
            parse_unsigned(num, 0xffff_ffff)
        };
        match code {
            Some(n) => if is_scalar(n) {
                Some(seq![(n as u32) as char])
            } else {
                None
            },
            None => None,
        }
    } else {
        named_entity(name)
    }
}

/// Appends what `&name;` stands for to `out`; false, with `out` unchanged,
/// for an unknown or malformed reference.
pub fn push_entity(out: &mut Vec<char>, name: &[char]) -> (r: bool)
    ensures
        r == entity_text(name@) is Some,
        r ==> final(out)@ == old(out)@ + entity_text(name@).unwrap(),
        !r ==> final(out)@ == old(out)@,
{
    if name.len() > 0 && name[0] == '#' {
        let num = slice(name, 1, name.len());
        assert(num@ =~= name@.drop_first());
        let code = if num.len() > 0 && (num[0] == 'x' || num[0] == 'X') {
            let hex = slice(&num, 1, num.len());
            assert(hex@ =~= num@.drop_first());
            parse_hex_chars(&hex)
        } else {
            parse_unsigned_chars(&num, 0xffff_ffff)
        };
        match code {
            Some(n) => {
                match char_from_u32(n as u32) {
                    Some(ch) => {
                        out.push(ch);
                        true
                    },
                    None => false,
                }
            },
            None => false,
        }
    } else {
        match named_entity_text(name) {
            Some(t) => {
                push_str(out, t);
                true
            },
            None => false,
        }
    }
}

/// `s` with its character references decoded in a single pass, so "&amp;lt;"
/// becomes "&lt;". Unknown or malformed references are kept as written; a
/// `;` more than 32 bytes after the `&` means the `&` is plain text.
pub open spec fn decoded(s: Seq<char>) -> Seq<char>
    decreases s.len(),
{
    match find_str(s, seq!['&']) {
        None => s,
        Some(a) => {
            proof {
                lemma_find_str(s, seq!['&']);
            }
            let after = s.skip(a + 1);
            s.take(a) + match semicolon_from(after, 0) {
                Some(e) => {
                    proof {
                        lemma_semicolon_bounds(after, 0);
                    }
                    if entity_text(after.take(e)) is Some {
                        entity_text(after.take(e)).unwrap() + decoded(after.skip(e + 1))
                    } else {
                        seq!['&'] + decoded(after)
                    }
                },
                None => seq!['&'] + decoded(after),
            }
        },
    }
}


/// Text without an `&` decodes to itself.
pub proof fn law_plain_text_decodes_to_itself(s: Seq<char>)
    requires
        !s.contains('&'),
    ensures
        decoded(s) == s,
{
    lemma_find_str(s, seq!['&']);
    if find_str(s, seq!['&']) is Some {
        let a = find_str(s, seq!['&']).unwrap();
        assert(s.subrange(a, a + 1) == seq!['&']);
        assert(s[a] == s.subrange(a, a + 1)[0]);
    }
}

/// The `;` ending a reference whose name starts at `start`, counted from `start`.
fn semicolon_at(v: &[char], start: usize) -> (r: Option<usize>)
    requires
        start <= v.len(),
    ensures
        match r {
            Some(e) => semicolon_from(v@.skip(start as int), 0) == Some(e as int) && start + e
                < v.len(),
            None => semicolon_from(v@.skip(start as int), 0) is None,
        },
{
    let ghost s = v@.skip(start as int);
    let mut i: usize = 0;
    let mut bytes: usize = 0;
    assert(s.take(0) =~= Seq::<char>::empty());
    while start + i < v.len()
        invariant
            start + i <= v.len(),
            s == v@.skip(start as int),
            bytes == utf8_size(s.take(i as int)),
            bytes <= 35,
            semicolon_from(s, 0) == semicolon_from(s, i as int),
        decreases v.len() - start - i,
    {
        if bytes >= 32 {
            return None;
        }
        let c = v[start + i];
        assert(s[i as int] == c);
        if c == ';' {
            return Some(i);
        }
        assert(s.take(i + 1).drop_last() =~= s.take(i as int));
        bytes += char_utf8_len(c);
        i += 1;
    }
    None
}

fn decode_chars(v: &[char]) -> (r: Vec<char>)
    ensures
        r@ == decoded(v@),
{
    let amp: Vec<char> = vec!['&'];
    assert(amp@ =~= seq!['&']);
    let mut out: Vec<char> = Vec::new();
    let mut pos: usize = 0;
    assert(v@.skip(0) =~= v@);
    while pos < v.len()
        invariant
            pos <= v.len(),
            amp@ == seq!['&'],
            out@ + decoded(v@.skip(pos as int)) == decoded(v@),
        decreases v.len() - pos,
    {
        let ghost rest = v@.skip(pos as int);
        let ghost p0 = pos;
        match find_in(v, pos, &amp) {
            None => {
                let tail = slice(v, pos, v.len());
                assert(tail@ =~= rest);
                push_all(&mut out, &tail);
                return out;
            },
            Some(a) => {
                proof {
                    lemma_find_str(rest, seq!['&']);
                }
                let before = slice(v, pos, a);
                assert(before@ =~= rest.take(a - pos));
                push_all(&mut out, &before);
                let ghost after = rest.skip(a - pos + 1);
                assert(after =~= v@.skip(a + 1));
                match semicolon_at(v, a + 1) {
                    Some(e) => {
                        proof {
                            lemma_semicolon_bounds(after, 0);
                        }
                        let name = slice(v, a + 1, a + 1 + e);
                        assert(name@ =~= after.take(e as int));
                        if push_entity(&mut out, &name) {
                            assert(after.skip(e + 1) =~= v@.skip(a + 1 + e + 1));
                            pos = a + 1 + e + 1;
                        } else {
                            out.push('&');
                            pos = a + 1;
                        }
                    },
                    None => {
                        out.push('&');
                        pos = a + 1;
                    },
                }
                assert(out@ + decoded(v@.skip(pos as int)) == decoded(v@)) by {
                    assert(find_str(rest, seq!['&']) == Some(a - p0));
                    assert(decoded(rest) == rest.take(a - p0) + match semicolon_from(after, 0) {
                        Some(e) => if entity_text(after.take(e)) is Some {
                            entity_text(after.take(e)).unwrap() + decoded(after.skip(e + 1))
                        } else {
                            seq!['&'] + decoded(after)
                        },
                        None => seq!['&'] + decoded(after),
                    });
                }
            },
        }
    }
    assert(v@.skip(pos as int) =~= Seq::<char>::empty());
    assert(out@ + Seq::<char>::empty() =~= out@);
    out
}

/// Decodes character references in a single pass, so "&amp;lt;" stays "&lt;".
/// Unknown or malformed references are kept as written.
pub fn decode_entities(input: &str) -> (r: String)
    ensures
        r@ == decoded(input@),
{
    let v = chars_of(input);
    let out = decode_chars(&v);
    string_of(&out)
}


/// `s` without its escape sequences: an ESC and everything after it up to
/// and including the next ASCII letter.
pub open spec fn without_ansi(s: Seq<char>) -> Seq<char> {
    ansi_scan(s).0
}

/// The visible text so far, and whether an escape sequence is open.
pub open spec fn ansi_scan(s: Seq<char>) -> (Seq<char>, bool)
    decreases s.len(),
{
    if s.len() == 0 {
        (Seq::empty(), false)
    } else {
        let (out, esc) = ansi_scan(s.drop_last());
        let c = s.last();
        if esc {
            (out, !is_ascii_letter(c))
        } else if c == '\x1b' {
            (out, true)
        } else {
            (out.push(c), false)
        }
    }
}

/// What is left after removing escape sequences holds no ESC, so nothing
/// of a sequence shows as text.
pub proof fn law_stripped_text_has_no_escapes(s: Seq<char>)
    ensures
        !without_ansi(s).contains('\x1b'),
    decreases s.len(),
{
    if s.len() > 0 {
        law_stripped_text_has_no_escapes(s.drop_last());
        let (out, esc) = ansi_scan(s.drop_last());
        assert(out == without_ansi(s.drop_last()));
        if !esc && s.last() != '\x1b' {
            assert forall|k: int| 0 <= k < out.push(s.last()).len() implies out.push(s.last())[k] != '\x1b' by {
                if k < out.len() {
                    assert(out[k] != '\x1b');
                }
            }
        }
    }
}

fn strip_ansi_chars(v: &[char]) -> (r: Vec<char>)
    ensures
        r@ == without_ansi(v@),
{
    let mut res: Vec<char> = Vec::new();
    let mut in_esc = false;
    let mut i: usize = 0;
    while i < v.len()
        invariant
            i <= v.len(),
            (res@, in_esc) == ansi_scan(v@.take(i as int)),
        decreases v.len() - i,
    {
        assert(v@.take(i + 1).drop_last() =~= v@.take(i as int));
        let c = v[i];
        if in_esc {
            if ('a' <= c && c <= 'z') || ('A' <= c && c <= 'Z') {
                in_esc = false;
            }
        } else if c == '\x1b' {
            in_esc = true;
        } else {
            res.push(c);
        }
        i += 1;
    }
    assert(v@.take(v.len() as int) =~= v@);
    res
}

/// The text without its escape sequences.
pub fn strip_ansi(s: &str) -> (r: String)
    ensures
        r@ == without_ansi(s@),
{
    let v = chars_of(s);
    let out = strip_ansi_chars(&v);
    string_of(&out)
}

/// `s` without its leading `/`s.
pub open spec fn without_leading_slashes(s: Seq<char>) -> Seq<char>
    decreases s.len(),
{
    if s.len() > 0 && s[0] == '/' {
        without_leading_slashes(s.drop_first())
    } else {
        s
    }
}

/// `s` without its trailing `/`s.
pub open spec fn without_trailing_slashes(s: Seq<char>) -> Seq<char>
    decreases s.len(),
{
    if s.len() > 0 && s.last() == '/' {
        without_trailing_slashes(s.drop_last())
    } else {
        s
    }
}

pub open spec fn block_name(name: Seq<char>) -> bool {
    name == "p"@ || name == "div"@ || name == "br"@ || name == "hr"@ || name == "blockquote"@ || name == "section"@ || name == "article"@ || name == "aside"@ || name == "header"@ || name == "footer"@ || name == "nav"@ || name == "figure"@ || name == "figcaption"@ || name == "table"@ || name == "tr"@ || name == "dl"@ || name == "dt"@ || name == "dd"@ || name == "address"@ || name == "center"@
}

/// Tags that start a new line of their own, open or closing.
pub open spec fn block_tag(tag: Seq<char>) -> bool {
    block_name(without_leading_slashes(tag))
}

pub fn is_block(tag: &[char]) -> (r: bool)
    ensures
        r == block_tag(tag@),
{
    let mut i: usize = 0;
    assert(tag@.skip(0) =~= tag@);
    while i < tag.len() && tag[i] == '/'
        invariant
            i <= tag.len(),
            without_leading_slashes(tag@) == without_leading_slashes(tag@.skip(i as int)),
        decreases tag.len() - i,
    {
        assert(tag@.skip(i as int).drop_first() =~= tag@.skip(i + 1));
        i += 1;
    }
    let name = slice(tag, i, tag.len());
    assert(name@ =~= tag@.skip(i as int));
    is_block_name(&name)
}

fn is_block_name(name: &[char]) -> (r: bool)
    ensures
        r == block_name(name@),
{
    eq_str(name, "p") || eq_str(name, "div") || eq_str(name, "br") || eq_str(name, "hr") || eq_str(name, "blockquote") || eq_str(name, "section") || eq_str(name, "article") || eq_str(name, "aside") || eq_str(name, "header") || eq_str(name, "footer") || eq_str(name, "nav") || eq_str(name, "figure") || eq_str(name, "figcaption") || eq_str(name, "table") || eq_str(name, "tr") || eq_str(name, "dl") || eq_str(name, "dt") || eq_str(name, "dd") || eq_str(name, "address") || eq_str(name, "center")
}


/// The formatter's state between characters.
pub struct Scan {
    /// Inside `<...>`
    pub in_tag: bool,
    /// What stands in the last tag so far
    pub tag: Seq<char>,
    pub out: Seq<char>,
    /// Inside head, style or script, until `closing`
    pub ignore: bool,
    pub closing: Seq<char>,
    /// Open lists, innermost last: None for <ul>, Some(next number) for <ol>
    pub lists: Seq<Option<nat>>,
    pub in_pre: bool,
    /// The output ends where a space would be redundant
    pub at_space: bool,
}

pub open spec fn scan_start() -> Scan {
    Scan {
        in_tag: false,
        tag: Seq::empty(),
        out: Seq::empty(),
        ignore: false,
        closing: Seq::empty(),
        lists: Seq::empty(),
        in_pre: false,
        at_space: true,
    }
}

/// The link target of an anchor tag's text: the `href="..."` value, or
/// failing that `href='...'`; empty when there is none.
pub open spec fn href_of(tag: Seq<char>) -> Seq<char> {
    match find_str(tag, "href=\""@) {
        Some(i) => match find_str(tag.skip(i + 6), seq!['"']) {
            Some(e) => tag.skip(i + 6).take(e),
            None => Seq::empty(),
        },
        None => match find_str(tag, "href='"@) {
            Some(i) => match find_str(tag.skip(i + 6), seq!['\'']) {
                Some(e) => tag.skip(i + 6).take(e),
                None => Seq::empty(),
            },
            None => Seq::empty(),
        },
    }
}

/// The tag's name: its first word, lowered, without trailing `/`s.
pub open spec fn base_name(lower: Seq<char>) -> Seq<char> {
    without_trailing_slashes(if words(lower).len() > 0 { words(lower)[0] } else { Seq::empty() })
}

/// What an open or closing tag writes, once it is neither ignored nor an
/// empty inline element.
pub open spec fn tag_effect(st: Scan, base: Seq<char>) -> Scan {
    if base == "h1"@ || base == "h2"@ || base == "h3"@ {
        Scan { out: st.out + "\n\x1b[1m\x1e"@, at_space: true, ..st }
    } else if base == "/h1"@ || base == "/h2"@ || base == "/h3"@ {
        Scan { out: st.out + "\x1b[22m\n\n"@, at_space: true, ..st }
    } else if base == "h4"@ || base == "h5"@ || base == "h6"@ {
        Scan { out: st.out + "\n\x1b[1m"@, at_space: true, ..st }
    } else if base == "/h4"@ || base == "/h5"@ || base == "/h6"@ {
        Scan { out: st.out + "\x1b[22m\n"@, at_space: true, ..st }
    } else if base == "b"@ || base == "strong"@ {
        Scan { out: st.out + "\x1b[1m"@, ..st }
    } else if base == "/b"@ || base == "/strong"@ {
        Scan { out: st.out + "\x1b[22m"@, ..st }
    } else if base == "i"@ || base == "em"@ {
        Scan { out: st.out + "\x1b[3m"@, ..st }
    } else if base == "/i"@ || base == "/em"@ {
        Scan { out: st.out + "\x1b[23m"@, ..st }
    } else if base == "ul"@ {
        Scan { lists: st.lists.push(None), out: st.out.push('\n'), at_space: true, ..st }
    } else if base == "ol"@ {
        Scan { lists: st.lists.push(Some(1)), out: st.out.push('\n'), at_space: true, ..st }
    } else if base == "/ul"@ || base == "/ol"@ {
        Scan {
            lists: if st.lists.len() > 0 { st.lists.drop_last() } else { st.lists },
            out: st.out.push('\n'),
            at_space: true,
            ..st
        }
    } else if base == "li"@ {
        if st.lists.len() > 0 && st.lists.last() is Some {
            let n = st.lists.last().unwrap();
            Scan {
                out: st.out.push('\n') + decimal(n) + ". "@,
                lists: st.lists.update(st.lists.len() - 1, Some(n + 1)),
                at_space: true,
                ..st
            }
        } else {
            Scan { out: st.out.push('\n') + "• "@, at_space: true, ..st }
        }
    } else if base == "/li"@ {
        Scan { out: st.out.push('\n'), at_space: true, ..st }
    } else if base == "pre"@ || base == "/pre"@ {
        Scan { in_pre: base == "pre"@, out: st.out.push('\n'), at_space: true, ..st }
    } else if base == "img"@ || base == "image"@ {
        Scan { out: st.out + "\n\x1b[2m[Image]\x1b[22m\n"@, at_space: true, ..st }
    } else if base == "a"@ {
        if href_of(st.tag).len() > 0 {
            Scan { out: st.out + "\x1b]8;;"@ + href_of(st.tag) + "\x1b\\\x1b[4m"@, ..st }
        } else {
            Scan { out: st.out + "\x1b[4m"@, ..st }
        }
    } else if base == "/a"@ {
        Scan { out: st.out + "\x1b[24m\x1b]8;;\x1b\\"@, ..st }
    } else if block_tag(base) {
        Scan { out: st.out.push('\n'), at_space: true, ..st }
    } else {
        st
    }
}

/// A tag's text lowered as `str::to_lowercase` lowers it: for ASCII text,
/// capitals A to Z lowered.
pub open spec fn tag_lower(tag: Seq<char>) -> Seq<char> {
    if is_ascii_text(tag) {
        lower_all(tag)
    } else {
        lowercase(tag)
    }
}

/// What a `>` does: the tag in `st.tag` ends and takes effect.
pub open spec fn tag_end(st: Scan) -> Scan {
    let lower = tag_lower(st.tag);
    let self_closing = lower.len() > 0 && lower.last() == '/';
    let base = base_name(lower);
    if st.ignore {
        if base == st.closing {
            Scan { ignore: false, ..st }
        } else {
            st
        }
    } else if self_closing && !block_tag(base) && !(base == "img"@ || base == "image"@) {
        // An empty element such as <a id="c05"/> must not switch on a style that never closes
        st
    } else if base == "head"@ || base == "style"@ || base == "script"@ {
        Scan { ignore: true, closing: seq!['/'] + base, ..st }
    } else {
        tag_effect(st, base)
    }
}

/// One character of HTML.
pub open spec fn scan_step(st: Scan, c: char) -> Scan {
    if c == '<' {
        Scan { in_tag: true, tag: Seq::empty(), ..st }
    } else if c == '>' {
        tag_end(Scan { in_tag: false, ..st })
    } else if st.in_tag {
        Scan { tag: st.tag.push(c), ..st }
    } else if st.ignore {
        st
    } else if st.in_pre {
        Scan { out: st.out.push(c), ..st }
    } else if is_ascii_space(c) {
        // Collapses runs of spaces and source line breaks; leaves &nbsp; (U+00A0) alone
        if !st.at_space {
            Scan { out: st.out.push(' '), at_space: true, ..st }
        } else {
            st
        }
    } else {
        Scan { out: st.out.push(c), at_space: false, ..st }
    }
}

pub open spec fn scan(html: Seq<char>) -> Scan
    decreases html.len(),
{
    if html.len() == 0 {
        scan_start()
    } else {
        scan_step(scan(html.drop_last()), html.last())
    }
}

/// The formatter's state after reading `s` from state `st`.
pub open spec fn scan_from(st: Scan, s: Seq<char>) -> Scan
    decreases s.len(),
{
    if s.len() == 0 {
        st
    } else {
        scan_step(scan_from(st, s.drop_last()), s.last())
    }
}

proof fn lemma_scan_concat(u: Seq<char>, v: Seq<char>)
    ensures
        scan(u + v) == scan_from(scan(u), v),
    decreases v.len(),
{
    if v.len() == 0 {
        assert(u + v =~= u);
    } else {
        lemma_scan_concat(u, v.drop_last());
        assert((u + v).drop_last() =~= u + v.drop_last());
        assert((u + v).last() == v.last());
    }
}

/// What an ignored part waits for is a closing tag's name, or nothing yet.
proof fn lemma_closing_shape(p: Seq<char>)
    ensures
        scan(p).closing.len() == 0 || scan(p).closing[0] == '/',
    decreases p.len(),
{
    if p.len() > 0 {
        lemma_closing_shape(p.drop_last());
    }
}

/// Text without `<` or `>` read while ignoring changes nothing.
proof fn lemma_ignored_text(st: Scan, t: Seq<char>)
    requires
        st.ignore,
        !st.in_tag,
        !t.contains('<'),
        !t.contains('>'),
    ensures
        scan_from(st, t) == st,
    decreases t.len(),
{
    if t.len() > 0 {
        assert(!t.drop_last().contains('<') && !t.drop_last().contains('>')) by {
            if t.drop_last().contains('<') {
                let k = choose|k: int| 0 <= k < t.drop_last().len() && t.drop_last()[k] == '<';
                assert(t[k] == '<');
            }
            if t.drop_last().contains('>') {
                let k = choose|k: int| 0 <= k < t.drop_last().len() && t.drop_last()[k] == '>';
                assert(t[k] == '>');
            }
        }
        lemma_ignored_text(st, t.drop_last());
        assert(t.last() == t[t.len() - 1]);
    }
}

/// After `<head>`, whatever came before, the formatter ignores what follows.
proof fn lemma_head_opens(st: Scan)
    requires
        st.closing.len() == 0 || st.closing[0] == '/',
    ensures
        scan_from(st, "<head>"@).ignore,
        !scan_from(st, "<head>"@).in_tag,
{
    reveal_strlit("<head>");
    reveal_strlit("head");
    let h = "<head>"@;
    assert(h =~= seq!['<', 'h', 'e', 'a', 'd', '>']);
    assert(h.drop_last() =~= seq!['<', 'h', 'e', 'a', 'd']);
    assert(h.drop_last().drop_last() =~= seq!['<', 'h', 'e', 'a']);
    assert(h.drop_last().drop_last().drop_last() =~= seq!['<', 'h', 'e']);
    assert(h.drop_last().drop_last().drop_last().drop_last() =~= seq!['<', 'h']);
    assert(h.drop_last().drop_last().drop_last().drop_last().drop_last() =~= seq!['<']);
    assert(seq!['<'].drop_last() =~= Seq::<char>::empty());
    assert(scan_from(st, Seq::<char>::empty()) == st);
    let s1 = scan_from(st, seq!['<']);
    assert(s1 == Scan { in_tag: true, tag: Seq::empty(), ..st });
    let s2 = scan_from(st, seq!['<', 'h']);
    assert(Seq::<char>::empty().push('h') =~= seq!['h']);
    assert(s2 == Scan { in_tag: true, tag: seq!['h'], ..st });
    let s3 = scan_from(st, seq!['<', 'h', 'e']);
    assert(seq!['h'].push('e') =~= seq!['h', 'e']);
    assert(s3 == Scan { in_tag: true, tag: seq!['h', 'e'], ..st });
    let s4 = scan_from(st, seq!['<', 'h', 'e', 'a']);
    assert(seq!['h', 'e'].push('a') =~= seq!['h', 'e', 'a']);
    assert(s4 == Scan { in_tag: true, tag: seq!['h', 'e', 'a'], ..st });
    let s5 = scan_from(st, seq!['<', 'h', 'e', 'a', 'd']);
    let name = seq!['h', 'e', 'a', 'd'];
    assert(seq!['h', 'e', 'a'].push('d') =~= name);
    assert(s5 == Scan { in_tag: true, tag: name, ..st });
    assert(name =~= "head"@);
    assert(is_ascii_text(name));
    assert(lower_all(name) =~= name);
    assert(tag_lower(name) == name);
    assert(name.drop_last() =~= seq!['h', 'e', 'a']);
    assert(seq!['h', 'e', 'a'].drop_last() =~= seq!['h', 'e']);
    assert(seq!['h', 'e'].drop_last() =~= seq!['h']);
    assert(seq!['h'].drop_last() =~= Seq::<char>::empty());
    assert(!is_white_space('h') && !is_white_space('e') && !is_white_space('a') && !is_white_space('d'));
    assert(words_fold(Seq::<char>::empty()) == (Seq::<Seq<char>>::empty(), Seq::<char>::empty()));
    assert(Seq::<Seq<char>>::empty().push(seq!['h']) =~= seq![seq!['h']]);
    assert(words_fold(seq!['h']).0 =~= seq![seq!['h']]);
    assert(words_fold(seq!['h']).1 =~= seq!['h']);
    assert(seq!['h'].push('e') =~= seq!['h', 'e']);
    assert(words_fold(seq!['h', 'e']).0 =~= seq![seq!['h', 'e']]);
    assert(words_fold(seq!['h', 'e']).1 =~= seq!['h', 'e']);
    assert(seq!['h', 'e'].push('a') =~= seq!['h', 'e', 'a']);
    assert(words_fold(seq!['h', 'e', 'a']).0 =~= seq![seq!['h', 'e', 'a']]);
    assert(words_fold(seq!['h', 'e', 'a']).1 =~= seq!['h', 'e', 'a']);
    assert(seq!['h', 'e', 'a'].push('d') =~= name);
    assert(words_fold(name).0 =~= seq![name]);
    assert(words(name)[0] == name);
    assert(without_trailing_slashes(name) == name);
    assert(base_name(name) == name);
    if st.ignore {
        assert(name != st.closing) by {
            if st.closing.len() > 0 {
                assert(name[0] != st.closing[0]);
            }
        }
    }
}

/// Everything between `<head>` and `</head>` is left out: text there adds
/// nothing to the formatted chapter, whatever comes before or after it.
pub proof fn law_head_is_left_out(pre: Seq<char>, t: Seq<char>, post: Seq<char>)
    requires
        !t.contains('<'),
        !t.contains('>'),
    ensures
        formatted(pre + "<head>"@ + t + "</head>"@ + post) == formatted(pre + "<head></head>"@ + post),
{
    reveal_strlit("<head>");
    reveal_strlit("</head>");
    reveal_strlit("<head></head>");
    let h = "<head>"@;
    let c = "</head>"@ + post;
    let a = pre + h;
    assert("<head></head>"@ =~= h + "</head>"@);
    assert(pre + h + t + "</head>"@ + post =~= (a + t) + c);
    assert(pre + "<head></head>"@ + post =~= a + c);
    lemma_scan_concat(pre, h);
    lemma_closing_shape(pre);
    lemma_head_opens(scan(pre));
    lemma_scan_concat(a, t);
    lemma_ignored_text(scan(a), t);
    lemma_scan_concat(a + t, c);
    lemma_scan_concat(a, c);
}

/// A chapter's HTML as terminal text: block tags start lines, headings and
/// emphasis become ANSI styles, list items get markers, pre keeps its line
/// breaks, head, style and script are left out, and character references
/// are decoded.
pub open spec fn formatted(html: Seq<char>) -> Seq<char> {
    decoded(scan(html).out)
}

/// The formatter's state in memory.
struct Scanner {
    in_tag: bool,
    tag: Vec<char>,
    out: Vec<char>,
    ignore: bool,
    closing: Vec<char>,
    lists: Vec<Option<usize>>,
    in_pre: bool,
    at_space: bool,
}

pub open spec fn list_view(l: Option<usize>) -> Option<nat> {
    match l {
        Some(n) => Some(n as nat),
        None => None,
    }
}

impl Scanner {
    spec fn model(&self) -> Scan {
        Scan {
            in_tag: self.in_tag,
            tag: self.tag@,
            out: self.out@,
            ignore: self.ignore,
            closing: self.closing@,
            lists: self.lists@.map_values(|l: Option<usize>| list_view(l)),
            in_pre: self.in_pre,
            at_space: self.at_space,
        }
    }

    /// Every list number is at most `k`.
    spec fn numbers_within(&self, k: nat) -> bool {
        forall|j: int| 0 <= j < self.lists@.len() ==> (#[trigger] self.lists@[j] matches Some(n) ==> n <= k)
    }

    /// What an open or closing tag writes.
    fn effect(&mut self, base: &[char], Ghost(k): Ghost<nat>)
        requires
            old(self).numbers_within(k),
            k < usize::MAX,
        ensures
            final(self).model() == tag_effect(old(self).model(), base@),
            final(self).numbers_within(k + 1),
    {
        let ghost st = self.model();
        if eq_str(base, "h1") || eq_str(base, "h2") || eq_str(base, "h3") {
            push_str(&mut self.out, "\n\x1b[1m\x1e");
            self.at_space = true;
        } else if eq_str(base, "/h1") || eq_str(base, "/h2") || eq_str(base, "/h3") {
            push_str(&mut self.out, "\x1b[22m\n\n");
            self.at_space = true;
        } else if eq_str(base, "h4") || eq_str(base, "h5") || eq_str(base, "h6") {
            push_str(&mut self.out, "\n\x1b[1m");
            self.at_space = true;
        } else if eq_str(base, "/h4") || eq_str(base, "/h5") || eq_str(base, "/h6") {
            push_str(&mut self.out, "\x1b[22m\n");
            self.at_space = true;
        } else if eq_str(base, "b") || eq_str(base, "strong") {
            push_str(&mut self.out, "\x1b[1m");
        } else if eq_str(base, "/b") || eq_str(base, "/strong") {
            push_str(&mut self.out, "\x1b[22m");
        } else if eq_str(base, "i") || eq_str(base, "em") {
            push_str(&mut self.out, "\x1b[3m");
        } else if eq_str(base, "/i") || eq_str(base, "/em") {
            push_str(&mut self.out, "\x1b[23m");
        } else if eq_str(base, "ul") {
            self.lists.push(None);
            self.out.push('\n');
            self.at_space = true;
            assert(self.model().lists =~= st.lists.push(None));
        } else if eq_str(base, "ol") {
            self.lists.push(Some(1));
            self.out.push('\n');
            self.at_space = true;
            assert(self.model().lists =~= st.lists.push(Some(1)));
        } else if eq_str(base, "/ul") || eq_str(base, "/ol") {
            if self.lists.len() > 0 {
                self.lists.pop();
                assert(self.model().lists =~= st.lists.drop_last());
            }
            self.out.push('\n');
            self.at_space = true;
        } else if eq_str(base, "li") {
            self.out.push('\n');
            let len = self.lists.len();
            if len > 0 && self.lists[len - 1].is_some() {
                let n = self.lists[len - 1].unwrap();
                assert(self.lists@[len - 1] matches Some(m) ==> m <= k);
                push_decimal(&mut self.out, n as u64);
                push_str(&mut self.out, ". ");
                self.lists.set(len - 1, Some(n + 1));
                assert(self.model().lists =~= st.lists.update(st.lists.len() - 1, Some((n + 1) as nat)));
            } else {
                push_str(&mut self.out, "• ");
            }
            self.at_space = true;
        } else if eq_str(base, "/li") {
            self.out.push('\n');
            self.at_space = true;
        } else if eq_str(base, "pre") || eq_str(base, "/pre") {
            self.in_pre = eq_str(base, "pre");
            self.out.push('\n');
            self.at_space = true;
        } else if eq_str(base, "img") || eq_str(base, "image") {
            push_str(&mut self.out, "\n\x1b[2m[Image]\x1b[22m\n");
            self.at_space = true;
        } else if eq_str(base, "a") {
            let href = self.href();
            if href.len() > 0 {
                push_str(&mut self.out, "\x1b]8;;");
                push_all(&mut self.out, &href);
                push_str(&mut self.out, "\x1b\\\x1b[4m");
            } else {
                push_str(&mut self.out, "\x1b[4m");
            }
        } else if eq_str(base, "/a") {
            push_str(&mut self.out, "\x1b[24m\x1b]8;;\x1b\\");
        } else if is_block(base) {
            self.out.push('\n');
            self.at_space = true;
        }
    }

    /// What a `>` does.
    fn end_tag(&mut self, Ghost(k): Ghost<nat>)
        requires
            old(self).numbers_within(k),
            k < usize::MAX,
            !old(self).in_tag,
        ensures
            final(self).model() == tag_end(old(self).model()),
            final(self).numbers_within(k + 1),
    {
        let lower = lowercased(&self.tag);
        assert(lower@ == tag_lower(self.tag@));
        let self_closing = lower.len() > 0 && lower[lower.len() - 1] == '/';
        let ws = split_words(&lower);
        let mut n: usize = if ws.len() > 0 { ws[0].len() } else { 0 };
        proof {
            if ws@.len() > 0 {
                assert(views(ws@)[0].take(n as int) =~= views(ws@)[0]);
            }
        }
        while n > 0 && ws[0][n - 1] == '/'
            invariant
                ws@.len() > 0 ==> n <= ws@[0]@.len(),
                ws@.len() == 0 ==> n == 0,
                without_trailing_slashes(if views(ws@).len() > 0 { views(ws@)[0] } else { Seq::empty() })
                    == without_trailing_slashes(if views(ws@).len() > 0 { views(ws@)[0].take(n as int) } else { Seq::empty() }),
            decreases n,
        {
            assert(ws@[0]@.take(n as int).drop_last() =~= ws@[0]@.take(n - 1));
            n -= 1;
        }
        let base = if ws.len() > 0 { slice(&ws[0], 0, n) } else { Vec::new() };
        proof {
            if ws@.len() > 0 {
                assert(ws@[0]@.take(n as int) =~= ws@[0]@.subrange(0, n as int));
                assert(views(ws@)[0] == ws@[0]@);
                if n == ws@[0]@.len() {
                    assert(ws@[0]@.take(n as int) =~= ws@[0]@);
                }
            } else {
                assert(base@ =~= Seq::<char>::empty());
            }
        }
        assert(base@ == base_name(lower@));
        if self.ignore {
            if eq_chars(&base, &self.closing) {
                self.ignore = false;
            }
            return;
        }
        if self_closing && !is_block(&base) && !(eq_str(&base, "img") || eq_str(&base, "image")) {
            return;
        }
        if eq_str(&base, "head") || eq_str(&base, "style") || eq_str(&base, "script") {
            self.ignore = true;
            let mut closing: Vec<char> = Vec::new();
            closing.push('/');
            push_all(&mut closing, &base);
            assert(closing@ =~= seq!['/'] + base@);
            self.closing = closing;
            return;
        }
        self.effect(&base, Ghost(k));
    }

    /// One character of HTML.
    fn step(&mut self, c: char, Ghost(k): Ghost<nat>)
        requires
            old(self).numbers_within(k),
            k < usize::MAX,
        ensures
            final(self).model() == scan_step(old(self).model(), c),
            final(self).numbers_within(k + 1),
    {
        let ghost st = self.model();
        if c == '<' {
            self.in_tag = true;
            self.tag = Vec::new();
        } else if c == '>' {
            self.in_tag = false;
            self.end_tag(Ghost(k));
        } else if self.in_tag {
            self.tag.push(c);
        } else if self.ignore {
        } else if self.in_pre {
            self.out.push(c);
        } else if is_ascii_space_char(c) {
            if !self.at_space {
                self.out.push(' ');
                self.at_space = true;
            }
        } else {
            self.out.push(c);
            self.at_space = false;
        }
    }

    fn href(&self) -> (r: Vec<char>)
        ensures
            r@ == href_of(self.tag@),
    {
        let dq = chars_of("href=\"");
        let sq = chars_of("href='");
        proof {
            reveal_strlit("href=\"");
            reveal_strlit("href='");
        }
        let quote: Vec<char> = vec!['"'];
        let apos: Vec<char> = vec!['\''];
        assert(quote@ =~= seq!['"']);
        assert(apos@ =~= seq!['\'']);
        let t = &self.tag;
        proof {
            lemma_find_str(t@, dq@);
            lemma_find_str(t@, sq@);
        }
        assert(t@.skip(0) =~= t@);
        assert(dq@.len() == 6 && sq@.len() == 6);
        match find_in(t, 0, &dq) {
            Some(i) => {
                assert(find_str(t@, dq@) == Some(i as int));
                assert(occurs_at(t@, dq@, i as int));
                let tl = t.len();
                assert(i + 6 <= tl);
                proof {
                    lemma_find_str(t@.skip(i + 6), quote@);
                }
                match find_in(t, i + 6, &quote) {
                    Some(e) => {
                        assert(occurs_at(t@.skip(i + 6), quote@, e - (i + 6)));
                        assert(e < tl);
                        let r = slice(t, i + 6, e);
                        assert(r@ =~= t@.skip(i + 6).take(e - (i + 6)));
                        r
                    },
                    None => Vec::new(),
                }
            },
            None => {
                match find_in(t, 0, &sq) {
                    Some(i) => {
                        assert(find_str(t@, sq@) == Some(i as int));
                        assert(occurs_at(t@, sq@, i as int));
                        let tl = t.len();
                        assert(i + 6 <= tl);
                        proof {
                            lemma_find_str(t@.skip(i + 6), apos@);
                        }
                        match find_in(t, i + 6, &apos) {
                            Some(e) => {
                                assert(occurs_at(t@.skip(i + 6), apos@, e - (i + 6)));
                                assert(e < tl);
                                let r = slice(t, i + 6, e);
                                assert(r@ =~= t@.skip(i + 6).take(e - (i + 6)));
                                r
                            },
                            None => Vec::new(),
                        }
                    },
                    None => Vec::new(),
                }
            },
        }
    }
}


/// A chapter's HTML as terminal text (see `formatted`).
pub fn format_html_for_terminal(input: &str) -> (r: String)
    ensures
        r@ == formatted(input@),
{
    let v = chars_of(input);
    let mut sc = Scanner {
        in_tag: false,
        tag: Vec::new(),
        out: Vec::new(),
        ignore: false,
        closing: Vec::new(),
        lists: Vec::new(),
        in_pre: false,
        at_space: true,
    };
    assert(sc.model().lists =~= Seq::<Option<nat>>::empty());
    assert(sc.model() == scan_start());
    let mut i: usize = 0;
    while i < v.len()
        invariant
            i <= v.len(),
            sc.model() == scan(v@.take(i as int)),
            sc.numbers_within(i as nat),
        decreases v.len() - i,
    {
        assert(v@.take(i + 1).drop_last() =~= v@.take(i as int));
        sc.step(v[i], Ghost(i as nat));
        i += 1;
    }
    assert(v@.take(v.len() as int) =~= v@);
    let out = decode_chars(&sc.out);
    string_of(&out)
}

} // verus!
