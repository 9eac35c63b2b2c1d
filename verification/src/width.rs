//! Text measured in terminal columns rather than characters: wide characters
//! (Chinese, Japanese, Korean) take two columns and escape sequences none.

use vstd::prelude::*;
use crate::text::{chars_of, push_all, string_of};

verus! {

/// The columns `textwrap::core::display_width` gives `s`.
pub uninterp spec fn display_width(s: Seq<char>) -> usize;

/// Columns `s` takes on a terminal (`textwrap::core::display_width`). The
/// contract names the result `display_width`, and states what the source
/// shows plainly: the width is the sum of the characters' widths, escape
/// sequences aside, so text without ESC takes the sum of its characters'
/// own widths; a printable ASCII character takes one column (unicode-width's
/// fast path); and "…" takes one, as unicode-width's table gives it (an
/// East Asian ambiguous character, counted narrow). The widths of other
/// characters come from those tables, which no clause states.
#[verifier::external_body]
pub fn width(s: &str) -> (r: usize)
    ensures
        r == display_width(s@),
        !s@.contains('\x1b') ==> r == columns(s@),
        s@.len() == 1 && ' ' <= s@[0] && s@[0] <= '~' ==> r == 1,
        s@ == seq!['…'] ==> r == 1,
{
    textwrap::core::display_width(s)
}

/// The columns one character takes.
pub open spec fn char_width(c: char) -> nat {
    display_width(seq![c]) as nat
}

/// The columns of `s` counted character by character.
pub open spec fn columns(s: Seq<char>) -> nat
    decreases s.len(),
{
    if s.len() == 0 {
        0
    } else {
        columns(s.drop_last()) + char_width(s.last())
    }
}

/// How many leading characters of `s`, from the `i`-th on, still leave room
/// for "…" within `max` columns.
pub open spec fn fit_from(s: Seq<char>, max: nat, i: int) -> int
    decreases s.len() - i,
{
    if i < 0 || i >= s.len() {
        s.len() as int
    } else if columns(s.take(i)) + char_width(s[i]) + 1 > max {
        i
    } else {
        fit_from(s, max, i + 1)
    }
}

/// `s` cut to at most `max` columns: whole if it fits, otherwise the longest
/// start that leaves a column for "…", then "…" (nothing at all for zero columns).
pub open spec fn truncated(s: Seq<char>, max: nat) -> Seq<char> {
    if display_width(s) <= max {
        s
    } else {
        s.take(fit_from(s, max, 0)) + if max > 0 {
            seq!['…']
        } else {
            Seq::empty()
        }
    }
}

pub proof fn lemma_fit_from_bounds(s: Seq<char>, max: nat, i: int)
    requires
        0 <= i <= s.len(),
    ensures
        i <= fit_from(s, max, i) <= s.len(),
    decreases s.len() - i,
{
    if i < s.len() && columns(s.take(i)) + char_width(s[i]) + 1 <= max {
        lemma_fit_from_bounds(s, max, i + 1);
    }
}

/// The columns one character takes.
pub fn char_columns(c: char) -> (r: usize)
    ensures
        r == char_width(c),
        c == '…' ==> r == 1,
{
    let mut v: Vec<char> = Vec::new();
    v.push(c);
    assert(v@ =~= seq![c]);
    let s = string_of(&v);
    width(s.as_str())
}

/// Cuts plain text to at most `max` columns, ending with "…" when shortened.
pub fn truncate(s: &str, max: usize) -> (r: String)
    ensures
        r@ == truncated(s@, max as nat),
        !s@.contains('\x1b') ==> display_width(s@) == columns(s@),
        !s@.contains('\x1b') ==> columns(r@) <= max && !r@.contains('\x1b'),
{
    if width(s) <= max {
        return string_of(&chars_of(s));
    }
    let ellipsis = char_columns('…');
    let v = chars_of(s);
    let mut out: Vec<char> = Vec::new();
    let mut used: usize = 0;
    let mut i: usize = 0;
    assert(v@.take(0) =~= Seq::<char>::empty());
    while i < v.len()
        invariant
            i <= v.len(),
            used as nat == columns(v@.take(i as int)),
            used <= max,
            ellipsis == 1,
            out@ == v@.take(i as int),
            fit_from(v@, max as nat, 0) == fit_from(v@, max as nat, i as int),
        ensures
            fit_from(v@, max as nat, 0) == i as int,
            out@ == v@.take(i as int),
        decreases v.len() - i,
    {
        let w = char_columns(v[i]);
        if w > max - used || ellipsis > max - used - w {
            assert(columns(v@.take(i as int)) + char_width(v@[i as int]) + 1 > max);
            break;
        }
        assert(v@.take(i + 1).drop_last() =~= v@.take(i as int));
        out.push(v[i]);
        used += w;
        i += 1;
        assert(out@ =~= v@.take(i as int));
    }
    if max > 0 {
        out.push('…');
    }
    proof {
        law_truncation_fits(s@, max as nat);
        if !s@.contains('\x1b') {
            lemma_truncated_keeps_out(s@, max as nat, '\x1b');
            assert(char_width('…') == 1);
            assert(display_width(s@) == columns(s@));
            assert(out@ == truncated(s@, max as nat));
            assert(columns(out@) <= max);
        }
    }
    string_of(&out)
}

proof fn lemma_fit_from_fits(s: Seq<char>, max: nat, i: int)
    requires
        0 <= i <= s.len(),
        columns(s.take(i)) + 1 <= max,
    ensures
        columns(s.take(fit_from(s, max, i))) + 1 <= max,
    decreases s.len() - i,
{
    if i < s.len() && columns(s.take(i)) + char_width(s[i]) + 1 <= max {
        assert(s.take(i + 1).drop_last() =~= s.take(i));
        lemma_fit_from_fits(s, max, i + 1);
    }
}

/// Where `fit_from` stops short of the end, the next character would not
/// leave room for "…".
proof fn lemma_fit_from_longest(s: Seq<char>, max: nat, i: int)
    requires
        0 <= i <= s.len(),
    ensures
        fit_from(s, max, i) < s.len() ==> ({
            let k = fit_from(s, max, i);
            columns(s.take(k + 1)) + 1 > max
        }),
    decreases s.len() - i,
{
    if i < s.len() {
        assert(s.take(i + 1).drop_last() =~= s.take(i));
        if columns(s.take(i)) + char_width(s[i]) + 1 <= max {
            lemma_fit_from_longest(s, max, i + 1);
        }
    }
}

/// Cutting keeps to the width: text that fits is kept whole; text that does
/// not keeps the longest start whose characters leave a column for the "…"
/// that ends it (zero columns keep nothing at all). Where the text's width
/// is that of its characters (text without ESC, by `width`'s contract) and
/// "…" takes one column, the result takes at most `max` columns.
pub proof fn law_truncation_fits(s: Seq<char>, max: nat)
    ensures
        display_width(s) <= max ==> truncated(s, max) == s,
        display_width(s) > max && max > 0 ==> ({
            let t = truncated(s, max);
            &&& t.len() > 0
            &&& t.last() == '…'
            &&& columns(t.drop_last()) + 1 <= max
            &&& t.drop_last() == s.take(t.len() - 1)
            &&& t.len() - 1 < s.len() ==> columns(s.take(t.len() as int)) + 1 > max
        }),
        display_width(s) > max && max == 0 ==> truncated(s, max).len() == 0,
        display_width(s) == columns(s) && char_width('…') <= 1 ==> columns(truncated(s, max)) <= max,
{
    if display_width(s) > max {
        assert(s.take(0) =~= Seq::<char>::empty());
        lemma_fit_from_bounds(s, max, 0);
        let k = fit_from(s, max, 0);
        if max > 0 {
            lemma_fit_from_fits(s, max, 0);
            lemma_fit_from_longest(s, max, 0);
            let t = truncated(s, max);
            assert(t.drop_last() =~= s.take(k));
            assert(t.len() == k + 1);
            assert(columns(t) == columns(t.drop_last()) + char_width(t.last()));
        } else {
            if s.len() > 0 {
                assert(k == 0);
            }
            assert(truncated(s, max) =~= Seq::<char>::empty());
        }
    }
}

/// Cutting adds no character but "…": a character other than "…" that the
/// text does not hold, the cut text does not hold either.
pub proof fn lemma_truncated_keeps_out(s: Seq<char>, max: nat, c: char)
    requires
        !s.contains(c),
        c != '…',
    ensures
        !truncated(s, max).contains(c),
{
    if display_width(s) > max {
        lemma_fit_from_bounds(s, max, 0);
        let k = fit_from(s, max, 0);
        let t = truncated(s, max);
        assert forall|i: int| 0 <= i < t.len() implies t[i] != c by {
            if i < k {
                assert(t[i] == s[i]);
            }
        }
    }
}

/// `n` spaces.
pub open spec fn spaces(n: nat) -> Seq<char> {
    Seq::new(n, |i: int| ' ')
}

fn push_spaces(out: &mut Vec<char>, n: usize)
    ensures
        final(out)@ == old(out)@ + spaces(n as nat),
{
    let ghost start = out@;
    let mut i: usize = 0;
    while i < n
        invariant
            i <= n,
            out@ == start + spaces(i as nat),
        decreases n - i,
    {
        out.push(' ');
        i += 1;
        assert(out@ =~= start + spaces(i as nat));
    }
}

/// The room left over when `s` takes `columns` columns: none if it takes more.
pub open spec fn room(s: Seq<char>, columns: nat) -> nat {
    if display_width(s) >= columns {
        0
    } else {
        (columns - display_width(s)) as nat
    }
}

/// `s` padded with spaces on the right to `columns` columns.
pub fn pad_right(s: &str, columns: usize) -> (r: String)
    ensures
        r@ == s@ + spaces(room(s@, columns as nat)),
{
    let mut out = chars_of(s);
    push_spaces(&mut out, columns.saturating_sub(width(s)));
    string_of(&out)
}

/// `s` padded with spaces on the left to `columns` columns.
pub fn pad_left(s: &str, columns: usize) -> (r: String)
    ensures
        r@ == spaces(room(s@, columns as nat)) + s@,
{
    let mut out: Vec<char> = Vec::new();
    push_spaces(&mut out, columns.saturating_sub(width(s)));
    let v = chars_of(s);
    push_all(&mut out, &v);
    string_of(&out)
}

/// `s` centered in `columns` columns, the odd space on the right.
pub fn center(s: &str, columns: usize) -> (r: String)
    ensures
        r@ == spaces(room(s@, columns as nat) / 2) + s@ + spaces(
            (room(s@, columns as nat) - room(s@, columns as nat) / 2) as nat,
        ),
{
    let room = columns.saturating_sub(width(s));
    let mut out: Vec<char> = Vec::new();
    push_spaces(&mut out, room / 2);
    let v = chars_of(s);
    push_all(&mut out, &v);
    push_spaces(&mut out, room - room / 2);
    string_of(&out)
}

} // verus!
