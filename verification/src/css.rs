//! The part of CSS a terminal can show: bold, italic, underline, small caps,
//! alignment and first-line indent. Rules use the simple selectors ebook tools
//! write (`tag`, `.class`, `tag.class`); rules with combinators, pseudo-classes
//! or attribute selectors are skipped, as are @-rules such as @media.

use vstd::prelude::*;
use crate::text::{ascii_lowercase, chars_of, eq_str, find_str, is_digit, lower_all, parse_unsigned, parse_unsigned_chars, remove_all, starts_with, remove_all_of, slice, split, split_at_char, split_words, starts_with_str, trim, trimmed, views, words, eq_chars, lemma_find_str, lemma_split_without_sep, find_from, occurs_at, find_in, push_all};


verus! {

#[derive(Clone, Copy, PartialEq, Eq, Structural, Debug)]
pub enum Align {
    Left,
    Center,
    Right,
}

impl Default for Align {
    fn default() -> (r: Self)
        ensures
            r == Align::Left,
    {
        Align::Left
    }
}

/// The style an element ends up with, its parent's included.
#[derive(Clone, Copy, PartialEq, Eq, Structural, Debug)]
pub struct Computed {
    pub bold: bool,
    pub italic: bool,
    pub underline: bool,
    pub small_caps: bool,
    pub align: Align,
    pub indent: bool,
}

impl Default for Computed {
    fn default() -> (r: Self)
        ensures
            r == (Computed {
                bold: false,
                italic: false,
                underline: false,
                small_caps: false,
                align: Align::Left,
                indent: false,
            }),
    {
        Computed {
            bold: false,
            italic: false,
            underline: false,
            small_caps: false,
            align: Align::Left,
            indent: false,
        }
    }
}

/// What a rule sets; None keeps the inherited value.
#[derive(Clone, Copy)]
pub struct Declared {
    pub bold: Option<bool>,
    pub italic: Option<bool>,
    pub underline: Option<bool>,
    pub small_caps: Option<bool>,
    pub align: Option<Align>,
    pub indent: Option<bool>,
}

/// A declaration that sets nothing.
pub open spec fn nothing_declared() -> Declared {
    Declared {
        bold: None,
        italic: None,
        underline: None,
        small_caps: None,
        align: None,
        indent: None,
    }
}

impl Default for Declared {
    fn default() -> (r: Self)
        ensures
            r == nothing_declared(),
    {
        Declared {
            bold: None,
            italic: None,
            underline: None,
            small_caps: None,
            align: None,
            indent: None,
        }
    }
}

/// `later` over `earlier`, property by property, as `Option::or` picks.
pub open spec fn merged(earlier: Declared, later: Declared) -> Declared {
    Declared {
        bold: if later.bold.is_some() { later.bold } else { earlier.bold },
        italic: if later.italic.is_some() { later.italic } else { earlier.italic },
        underline: if later.underline.is_some() { later.underline } else { earlier.underline },
        small_caps: if later.small_caps.is_some() { later.small_caps } else { earlier.small_caps },
        align: if later.align.is_some() { later.align } else { earlier.align },
        indent: if later.indent.is_some() { later.indent } else { earlier.indent },
    }
}

/// The declared values over the parent's, property by property.
pub open spec fn applied(d: Declared, parent: Computed) -> Computed {
    Computed {
        bold: if d.bold.is_some() { d.bold.unwrap() } else { parent.bold },
        italic: if d.italic.is_some() { d.italic.unwrap() } else { parent.italic },
        underline: if d.underline.is_some() { d.underline.unwrap() } else { parent.underline },
        small_caps: if d.small_caps.is_some() { d.small_caps.unwrap() } else { parent.small_caps },
        align: if d.align.is_some() { d.align.unwrap() } else { parent.align },
        indent: if d.indent.is_some() { d.indent.unwrap() } else { parent.indent },
    }
}

impl Declared {
    pub fn merge(&mut self, later: &Declared)
        ensures
            *final(self) == merged(*old(self), *later),
    {
        if later.bold.is_some() {
            self.bold = later.bold;
        }
        if later.italic.is_some() {
            self.italic = later.italic;
        }
        if later.underline.is_some() {
            self.underline = later.underline;
        }
        if later.small_caps.is_some() {
            self.small_caps = later.small_caps;
        }
        if later.align.is_some() {
            self.align = later.align;
        }
        if later.indent.is_some() {
            self.indent = later.indent;
        }
    }

    pub fn apply(&self, parent: Computed) -> (r: Computed)
        ensures
            r == applied(*self, parent),
    {
        Computed {
            bold: self.bold.unwrap_or(parent.bold),
            italic: self.italic.unwrap_or(parent.italic),
            underline: self.underline.unwrap_or(parent.underline),
            small_caps: self.small_caps.unwrap_or(parent.small_caps),
            align: self.align.unwrap_or(parent.align),
            indent: self.indent.unwrap_or(parent.indent),
        }
    }

    pub fn is_empty(&self) -> (r: bool)
        ensures
            r == (*self == nothing_declared()),
    {
        self.bold.is_none() && self.italic.is_none() && self.underline.is_none()
            && self.small_caps.is_none() && self.align.is_none() && self.indent.is_none()
    }
}


/// `font-weight` values that mean bold: `bold`, `bolder`, or a number from 600 up.
pub open spec fn bold_weight(value: Seq<char>) -> bool {
    ||| value == "bold"@
    ||| value == "bolder"@
    ||| (parse_unsigned(value, 0xffff_ffff) matches Some(n) && n >= 600)
}

pub fn is_bold(value: &[char]) -> (r: bool)
    ensures
        r == bold_weight(value@),
{
    if eq_str(value, "bold") || eq_str(value, "bolder") {
        return true;
    }
    match parse_unsigned_chars(value, 0xffff_ffff) {
        Some(n) => n >= 600,
        None => false,
    }
}

/// Characters that can make up a number's text: digits, `.`, `-` and `+`.
pub open spec fn number_char(c: char) -> bool {
    is_digit(c) || c == '.' || c == '-' || c == '+'
}

/// The longest prefix of `s` made of number characters.
pub open spec fn number_prefix(s: Seq<char>) -> Seq<char>
    decreases s.len(),
{
    if s.len() > 0 && number_char(s[0]) {
        seq![s[0]] + number_prefix(s.drop_first())
    } else {
        Seq::empty()
    }
}

/// Digits with at most one `.` among them and at least one digit: the
/// `Number` of `f64`'s `FromStr` grammar, without an exponent.
pub open spec fn decimal_syntax(b: Seq<char>) -> bool {
    &&& forall|i: int| 0 <= i < b.len() ==> is_digit(#[trigger] b[i]) || b[i] == '.'
    &&& forall|i: int, j: int| 0 <= i < b.len() && 0 <= j < b.len() && b[i] == '.' && b[j] == '.' ==> i == j
    &&& exists|i: int| 0 <= i < b.len() && is_digit(#[trigger] b[i])
}

/// The decimal digits of 2^-1075 after the point: half the smallest positive
/// `f64`. A decimal above it parses to a positive `f64`; one at or below it
/// rounds to zero (ties go to the even zero).
pub open spec fn half_min_subnormal() -> Seq<char> {
    Seq::new(323, |i: int| '0') + "24703282292062327208828439643411068618252990130716238221279284125033775363510437593264991818081799618989828234772285886546332835517796989819938739800539093906315035659515570226392290858392449105184435931802849936536152500319370457678249219365623669863658480757001585769269903706311928279558551332927834338409351978015531246597263579574622766465272827220056374006485499977096599470454020828166226237857393450736339007967761930577506740176324673600968951340535537458516661134223766678604162159680461914467291840300530057530849048765391711386591646239524912623653881879636239373280423891018672348497668235089863388587925628302755995657524455507255189313690836254779186948667994968324049705821028513185451396213837722826145437693412532098591327667236328125"@
}

/// Whether the decimal fraction with digits `a` exceeds the one with digits `b`.
pub open spec fn fraction_gt(a: Seq<char>, b: Seq<char>) -> bool
    decreases a.len() + b.len(),
{
    if a.len() == 0 && b.len() == 0 {
        false
    } else {
        let x = if a.len() > 0 { a[0] } else { '0' };
        let y = if b.len() > 0 { b[0] } else { '0' };
        if x != y {
            x > y
        } else {
            fraction_gt(
                if a.len() > 0 { a.drop_first() } else { a },
                if b.len() > 0 { b.drop_first() } else { b },
            )
        }
    }
}

/// Whether `f64`'s `FromStr` accepts `number` (made of number characters)
/// and gives a value above zero.
pub open spec fn parses_positive(number: Seq<char>) -> bool {
    !(number.len() > 0 && number[0] == '-') && positive_decimal(unsigned_body(number))
}

/// The number without its sign.
pub open spec fn unsigned_body(number: Seq<char>) -> Seq<char> {
    if number.len() > 0 && (number[0] == '+' || number[0] == '-') {
        number.drop_first()
    } else {
        number
    }
}

/// Whether a body of digits and a point spells a decimal that `f64` parsing
/// turns into a positive value.
pub open spec fn positive_decimal(body: Seq<char>) -> bool {
    &&& decimal_syntax(body)
    &&& ((exists|i: int| 0 <= i < integer_part(body).len() && integer_part(body)[i] != '0')
        || fraction_gt(fraction_part(body), half_min_subnormal()))
}

/// A first-line indent worth showing: a positive length. Zero, and the
/// negative hanging indents used for list-like paragraphs, are not.
pub open spec fn positive_length(value: Seq<char>) -> bool {
    parses_positive(number_prefix(value))
}

fn half_min_subnormal_digits() -> (v: Vec<char>)
    ensures
        v@ == half_min_subnormal(),
{
    let mut v: Vec<char> = Vec::new();
    let mut i: usize = 0;
    while i < 323
        invariant
            i <= 323,
            v@ == Seq::new(i as nat, |k: int| '0'),
        decreases 323 - i,
    {
        v.push('0');
        i += 1;
        assert(v@ =~= Seq::new(i as nat, |k: int| '0'));
    }
    let rest = chars_of("24703282292062327208828439643411068618252990130716238221279284125033775363510437593264991818081799618989828234772285886546332835517796989819938739800539093906315035659515570226392290858392449105184435931802849936536152500319370457678249219365623669863658480757001585769269903706311928279558551332927834338409351978015531246597263579574622766465272827220056374006485499977096599470454020828166226237857393450736339007967761930577506740176324673600968951340535537458516661134223766678604162159680461914467291840300530057530849048765391711386591646239524912623653881879636239373280423891018672348497668235089863388587925628302755995657524455507255189313690836254779186948667994968324049705821028513185451396213837722826145437693412532098591327667236328125");
    crate::text::push_all(&mut v, &rest);
    v
}

fn fraction_greater(a: &[char], b: &[char]) -> (r: bool)
    ensures
        r == fraction_gt(a@, b@),
{
    let mut i: usize = 0;
    let mut j: usize = 0;
    assert(a@.subrange(0, a@.len() as int) =~= a@);
    assert(b@.subrange(0, b@.len() as int) =~= b@);
    while i < a.len() || j < b.len()
        invariant
            i <= a.len(),
            j <= b.len(),
            fraction_gt(a@, b@) == fraction_gt(
                a@.subrange(i as int, a@.len() as int),
                b@.subrange(j as int, b@.len() as int),
            ),
        decreases a.len() - i + b.len() - j,
    {
        let ghost sa = a@.subrange(i as int, a@.len() as int);
        let ghost sb = b@.subrange(j as int, b@.len() as int);
        let x = if i < a.len() { a[i] } else { '0' };
        let y = if j < b.len() { b[j] } else { '0' };
        if x != y {
            return x > y;
        }
        if i < a.len() {
            assert(sa.drop_first() =~= a@.subrange(i + 1, a@.len() as int));
            i += 1;
        }
        if j < b.len() {
            assert(sb.drop_first() =~= b@.subrange(j + 1, b@.len() as int));
            j += 1;
        }
    }
    false
}

fn is_number_char(c: char) -> (r: bool)
    ensures
        r == number_char(c),
{
    ('0' <= c && c <= '9') || c == '.' || c == '-' || c == '+'
}

proof fn lemma_number_prefix_stops(s: Seq<char>, i: int)
    requires
        0 <= i <= s.len(),
        forall|k: int| 0 <= k < i ==> number_char(#[trigger] s[k]),
        i == s.len() || !number_char(s[i]),
    ensures
        number_prefix(s) == s.take(i),
    decreases i,
{
    if i == 0 {
        assert(s.take(0) =~= Seq::<char>::empty());
    } else {
        lemma_number_prefix_stops(s.drop_first(), i - 1);
        assert(seq![s[0]] + s.drop_first().take(i - 1) =~= s.take(i));
    }
}

fn number_text(value: &[char]) -> (r: Vec<char>)
    ensures
        r@ == number_prefix(value@),
{
    let mut n: usize = 0;
    while n < value.len() && is_number_char(value[n])
        invariant
            n <= value.len(),
            forall|k: int| 0 <= k < n ==> number_char(#[trigger] value@[k]),
        decreases value.len() - n,
    {
        n += 1;
    }
    proof {
        lemma_number_prefix_stops(value@, n as int);
    }
    slice(value, 0, n)
}

/// The part before the point.
pub open spec fn integer_part(b: Seq<char>) -> Seq<char> {
    match find_str(b, seq!['.']) {
        Some(d) => b.take(d),
        None => b,
    }
}

/// The digits after the point.
pub open spec fn fraction_part(b: Seq<char>) -> Seq<char> {
    match find_str(b, seq!['.']) {
        Some(d) => b.skip(d + 1),
        None => Seq::<char>::empty(),
    }
}

/// For a body in decimal syntax, where its point is and whether its integer
/// part has a nonzero digit; None for any other body.
#[verifier::loop_isolation(false)]
fn scan_decimal(b: &[char]) -> (r: Option<(Option<usize>, bool)>)
    ensures
        r is Some == decimal_syntax(b@),
        r matches Some((dot, nonzero)) ==> {
            &&& (dot matches Some(d) ==> find_str(b@, seq!['.']) == Some(d as int) && d < b@.len())
            &&& (dot is None ==> find_str(b@, seq!['.']) is None)
            &&& nonzero == exists|i: int|
                0 <= i < integer_part(b@).len() && integer_part(b@)[i] != '0'
        },
{
    let mut seen_dot: Option<usize> = None;
    let mut seen_digit = false;
    let mut nonzero_int = false;
    let mut k: usize = 0;
    while k < b.len()
        invariant
            k <= b.len(),
            forall|i: int| 0 <= i < k ==> is_digit(#[trigger] b@[i]) || b@[i] == '.',
            match seen_dot {
                Some(d) => d < k && b@[d as int] == '.' && forall|i: int|
                    0 <= i < k && b@[i] == '.' ==> i == d,
                None => forall|i: int| 0 <= i < k ==> b@[i] != '.',
            },
            seen_digit == exists|i: int| 0 <= i < k && is_digit(#[trigger] b@[i]),
            nonzero_int == exists|i: int|
                0 <= i < k && (seen_dot is None || i < seen_dot.unwrap()) && #[trigger] b@[i]
                    != '0',
        decreases b.len() - k,
    {
        let c = b[k];
        if c == '.' {
            if seen_dot.is_some() {
                assert(b@[seen_dot.unwrap() as int] == '.' && b@[k as int] == '.');
                return None;
            }
            seen_dot = Some(k);
        } else if '0' <= c && c <= '9' {
            seen_digit = true;
            if seen_dot.is_none() && c != '0' {
                nonzero_int = true;
            }
        } else {
            assert(!is_digit(b@[k as int]) && b@[k as int] != '.');
            return None;
        }
        k += 1;
    }
    if !seen_digit {
        return None;
    }
    let ghost bb = b@;
    proof {
        assert forall|i: int, j: int|
            0 <= i < bb.len() && 0 <= j < bb.len() && bb[i] == '.' && bb[j] == '.' implies i
            == j by {
            match seen_dot {
                Some(d) => {},
                None => {},
            }
        }
        assert(decimal_syntax(bb));
        lemma_find_str(bb, seq!['.']);
        match find_str(bb, seq!['.']) {
            Some(e) => {
                assert(bb.subrange(e, e + 1)[0] == bb[e]);
                assert(seq!['.'][0] == '.');
                assert(bb[e] == '.');
                assert(seen_dot == Some(e as usize));
            },
            None => {
                if let Some(d) = seen_dot {
                    assert(bb.subrange(d as int, d + 1) =~= seq![bb[d as int]]);
                    assert(occurs_at(bb, seq!['.'], d as int));
                }
            },
        }
        let ip = integer_part(bb);
        if nonzero_int {
            let i = choose|i: int|
                0 <= i < k && (seen_dot is None || i < seen_dot.unwrap()) && #[trigger] bb[i] != '0';
            assert(ip[i] != '0');
        } else {
            assert forall|i: int| 0 <= i < ip.len() implies ip[i] == '0' by {
                assert(ip[i] == bb[i]);
            }
        }
    }
    Some((seen_dot, nonzero_int))
}

pub fn is_positive_length(value: &[char]) -> (r: bool)
    ensures
        r == positive_length(value@),
{
    let number = number_text(value);
    let signed = number.len() > 0 && (number[0] == '+' || number[0] == '-');
    if signed && number[0] == '-' {
        return false;
    }
    let start: usize = if signed { 1 } else { 0 };
    let body = slice(&number, start, number.len());
    assert(body@ =~= (if signed { number@.drop_first() } else { number@ }));
    match scan_decimal(&body) {
        None => false,
        Some((dot, nonzero)) => {
            if nonzero {
                return true;
            }
            let fraction = match dot {
                Some(d) => slice(&body, d + 1, body.len()),
                None => Vec::new(),
            };
            assert(fraction@ =~= fraction_part(body@));
            let threshold = half_min_subnormal_digits();
            fraction_greater(&fraction, &threshold)
        },
    }
}


/// A declaration's property name and value, as the reader compares them:
/// the name trimmed and lowered, the value lowered, without `!important`,
/// and trimmed. None when there is no `:`.
pub open spec fn name_and_value(decl: Seq<char>) -> Option<(Seq<char>, Seq<char>)> {
    match find_str(decl, seq![':']) {
        Some(c) => Some(
            (
                lower_all(trim(decl.take(c))),
                trim(remove_all(lower_all(decl.skip(c + 1)), "!important"@)),
            ),
        ),
        None => None,
    }
}

pub open spec fn has_word(value: Seq<char>, w: Seq<char>) -> bool {
    words(value).contains(w)
}

/// What one `name: value` declaration does to what was declared before it.
pub open spec fn declare(d: Declared, name: Seq<char>, value: Seq<char>) -> Declared {
    if name == "font-style"@ {
        Declared {
            italic: Some(starts_with(value, "italic"@) || starts_with(value, "oblique"@)),
            ..d
        }
    } else if name == "font-weight"@ {
        Declared { bold: Some(bold_weight(value)), ..d }
    } else if name == "text-decoration"@ || name == "text-decoration-line"@ {
        Declared { underline: Some(has_word(value, "underline"@)), ..d }
    } else if name == "font-variant"@ || name == "font-variant-caps"@ {
        Declared {
            small_caps: Some(has_word(value, "small-caps"@) || has_word(value, "all-small-caps"@)),
            ..d
        }
    } else if name == "text-align"@ {
        Declared {
            align: Some(
                if value == "center"@ || value == "-webkit-center"@ {
                    Align::Center
                } else if value == "right"@ || value == "end"@ {
                    Align::Right
                } else {
                    Align::Left
                },
            ),
            ..d
        }
    } else if name == "text-indent"@ {
        Declared { indent: Some(positive_length(value)), ..d }
    } else if name == "font"@ {
        // The shorthand, as far as it names these properties
        Declared {
            italic: if has_word(value, "italic"@) || has_word(value, "oblique"@) {
                Some(true)
            } else {
                d.italic
            },
            small_caps: if has_word(value, "small-caps"@) {
                Some(true)
            } else {
                d.small_caps
            },
            bold: if exists|i: int| 0 <= i < words(value).len() && bold_weight(#[trigger] words(value)[i]) {
                Some(true)
            } else {
                d.bold
            },
            ..d
        }
    } else {
        d
    }
}

pub open spec fn apply_declaration(d: Declared, decl: Seq<char>) -> Declared {
    match name_and_value(decl) {
        Some((name, value)) => declare(d, name, value),
        None => d,
    }
}

/// The declarations in order, each over the ones before it.
pub open spec fn apply_declarations(d: Declared, decls: Seq<Seq<char>>) -> Declared
    decreases decls.len(),
{
    if decls.len() == 0 {
        d
    } else {
        apply_declaration(apply_declarations(d, decls.drop_last()), decls.last())
    }
}

/// What a block of declarations (`a: b; c: d`) sets.
pub open spec fn declarations(body: Seq<char>) -> Declared {
    apply_declarations(nothing_declared(), split(body, ';'))
}

/// The classes an element's class attribute lists, as words.
pub open spec fn class_words_seq(ws: Seq<Vec<char>>) -> Seq<Seq<char>> {
    views(ws)
}

fn contains_chars(ws: &Vec<Vec<char>>, w: &[char]) -> (r: bool)
    ensures
        r == views(ws@).contains(w@),
{
    let mut i: usize = 0;
    while i < ws.len()
        invariant
            i <= ws.len(),
            forall|k: int| 0 <= k < i ==> views(ws@)[k] != w@,
        decreases ws.len() - i,
    {
        if eq_chars(&ws[i], w) {
            assert(views(ws@)[i as int] == w@);
            return true;
        }
        i += 1;
    }
    false
}

fn contains_word(ws: &Vec<Vec<char>>, w: &str) -> (r: bool)
    ensures
        r == views(ws@).contains(w@),
{
    let mut i: usize = 0;
    while i < ws.len()
        invariant
            i <= ws.len(),
            forall|k: int| 0 <= k < i ==> views(ws@)[k] != w@,
        decreases ws.len() - i,
    {
        if eq_str(&ws[i], w) {
            assert(views(ws@)[i as int] == w@);
            return true;
        }
        i += 1;
    }
    false
}

fn any_bold_word(ws: &Vec<Vec<char>>) -> (r: bool)
    ensures
        r == exists|i: int| 0 <= i < views(ws@).len() && bold_weight(#[trigger] views(ws@)[i]),
{
    let mut i: usize = 0;
    while i < ws.len()
        invariant
            i <= ws.len(),
            forall|k: int| 0 <= k < i ==> !bold_weight(#[trigger] views(ws@)[k]),
        decreases ws.len() - i,
    {
        if is_bold(&ws[i]) {
            assert(bold_weight(views(ws@)[i as int]));
            return true;
        }
        i += 1;
    }
    false
}

fn declare_one(d: Declared, name: &[char], value: &[char]) -> (r: Declared)
    ensures
        r == declare(d, name@, value@),
{
    let mut d = d;
    if eq_str(name, "font-style") {
        d.italic = Some(starts_with_str(value, "italic") || starts_with_str(value, "oblique"));
    } else if eq_str(name, "font-weight") {
        d.bold = Some(is_bold(value));
    } else if eq_str(name, "text-decoration") || eq_str(name, "text-decoration-line") {
        let ws = split_words(value);
        d.underline = Some(contains_word(&ws, "underline"));
    } else if eq_str(name, "font-variant") || eq_str(name, "font-variant-caps") {
        let ws = split_words(value);
        d.small_caps = Some(contains_word(&ws, "small-caps") || contains_word(&ws, "all-small-caps"));
    } else if eq_str(name, "text-align") {
        d.align = Some(
            if eq_str(value, "center") || eq_str(value, "-webkit-center") {
                Align::Center
            } else if eq_str(value, "right") || eq_str(value, "end") {
                Align::Right
            } else {
                Align::Left
            },
        );
    } else if eq_str(name, "text-indent") {
        d.indent = Some(is_positive_length(value));
    } else if eq_str(name, "font") {
        let ws = split_words(value);
        if contains_word(&ws, "italic") || contains_word(&ws, "oblique") {
            d.italic = Some(true);
        }
        if contains_word(&ws, "small-caps") {
            d.small_caps = Some(true);
        }
        if any_bold_word(&ws) {
            d.bold = Some(true);
        }
    }
    d
}

fn declaration(d: Declared, decl: &[char]) -> (r: Declared)
    ensures
        r == apply_declaration(d, decl@),
{
    let colon: Vec<char> = vec![':'];
    assert(colon@ =~= seq![':']);
    proof {
        lemma_find_str(decl@, seq![':']);
    }
    match find_from(decl, 0, &colon) {
        None => {
            proof {
                match find_str(decl@, seq![':']) {
                    Some(c) => {},
                    None => {},
                }
            }
            d
        },
        Some(c) => {
            proof {
                match find_str(decl@, seq![':']) {
                    Some(e) => {
                        assert(e == c);
                    },
                    None => {},
                }
            }
            let name_raw = slice(decl, 0, c);
            let name = ascii_lowercase(&trimmed(&name_raw));
            let value_raw = slice(decl, c + 1, decl.len());
            let lowered = ascii_lowercase(&value_raw);
            let important = chars_of("!important");
            proof {
                reveal_strlit("!important");
            }
            let value = trimmed(&remove_all_of(&lowered, &important));
            assert(name_raw@ =~= decl@.take(c as int));
            assert(value_raw@ =~= decl@.skip(c + 1));
            declare_one(d, &name, &value)
        },
    }
}

pub fn parse_declarations(body: &[char]) -> (r: Declared)
    ensures
        r == declarations(body@),
{
    let decls = split_at_char(body, ';');
    let mut d = Declared::default();
    let mut i: usize = 0;
    while i < decls.len()
        invariant
            i <= decls.len(),
            views(decls@) == split(body@, ';'),
            d == apply_declarations(nothing_declared(), views(decls@).take(i as int)),
        decreases decls.len() - i,
    {
        assert(views(decls@).take(i + 1).drop_last() =~= views(decls@).take(i as int));
        d = declaration(d, &decls[i]);
        i += 1;
    }
    assert(views(decls@).take(decls.len() as int) =~= views(decls@));
    d
}


/// `css` with its `/* ... */` comments removed; an unclosed comment runs to the end.
pub open spec fn without_comments(css: Seq<char>) -> Seq<char>
    decreases css.len(),
{
    match find_str(css, seq!['/', '*']) {
        None => css,
        Some(a) => {
            proof {
                lemma_find_str(css, seq!['/', '*']);
            }
            css.take(a) + match find_str(css.skip(a + 2), seq!['*', '/']) {
                None => Seq::<char>::empty(),
                Some(b) => {
                    proof {
                        lemma_find_str(css.skip(a + 2), seq!['*', '/']);
                    }
                    without_comments(css.skip(a + 2 + b + 2))
                },
            }
        },
    }
}

pub fn strip_comments(css: &[char]) -> (r: Vec<char>)
    ensures
        r@ == without_comments(css@),
        r@.len() <= css@.len(),
{
    let open: Vec<char> = vec!['/', '*'];
    let close: Vec<char> = vec!['*', '/'];
    assert(open@ =~= seq!['/', '*']);
    assert(close@ =~= seq!['*', '/']);
    let mut out: Vec<char> = Vec::new();
    let mut pos: usize = 0;
    assert(css@.skip(0) =~= css@);
    while pos < css.len()
        invariant
            pos <= css.len(),
            open@ == seq!['/', '*'],
            close@ == seq!['*', '/'],
            out@ + without_comments(css@.skip(pos as int)) == without_comments(css@),
            out@.len() <= pos,
        decreases css.len() - pos,
    {
        let ghost rest = css@.skip(pos as int);
        match find_in(css, pos, &open) {
            None => {
                let tail = slice(css, pos, css.len());
                push_all(&mut out, &tail);
                assert(tail@ =~= rest);
                return out;
            },
            Some(a) => {
                proof {
                    lemma_find_str(rest, seq!['/', '*']);
                }
                let before = slice(css, pos, a);
                push_all(&mut out, &before);
                assert(before@ =~= rest.take(a - pos));
                assert(rest.skip(a - pos + 2) =~= css@.skip(a + 2));
                match find_in(css, a + 2, &close) {
                    None => {
                        assert(out@ =~= out@ + Seq::<char>::empty());
                        return out;
                    },
                    Some(b) => {
                        proof {
                            lemma_find_str(css@.skip(a + 2), seq!['*', '/']);
                        }
                        assert(rest.skip(a - pos + 2 + (b - a - 2) + 2) =~= css@.skip(b + 2));
                        pos = b + 2;
                    },
                }
            },
        }
    }
    assert(css@.skip(pos as int) =~= Seq::<char>::empty());
    assert(find_str(Seq::<char>::empty(), seq!['/', '*']) is None);
    assert(out@ + Seq::<char>::empty() =~= out@);
    out
}

/// Opening braces minus closing braces in `s`.
pub open spec fn brace_depth(s: Seq<char>) -> int
    decreases s.len(),
{
    if s.len() == 0 {
        0
    } else {
        brace_depth(s.drop_last()) + if s.last() == '{' {
            1int
        } else if s.last() == '}' {
            -1int
        } else {
            0int
        }
    }
}

/// Whether the `}` at `i` closes the block `s` starts with.
pub open spec fn closes_at(s: Seq<char>, i: int) -> bool {
    0 <= i < s.len() && s[i] == '}' && brace_depth(s.take(i + 1)) == 0
}

/// The first closing position at or after `i`.
pub open spec fn first_close(s: Seq<char>, i: int) -> Option<int>
    decreases s.len() - i,
{
    if i < 0 || i >= s.len() {
        None
    } else if closes_at(s, i) {
        Some(i)
    } else {
        first_close(s, i + 1)
    }
}

/// Length of the `{...}` block that `s` starts with, nested blocks included.
pub open spec fn block_length(s: Seq<char>) -> Option<int> {
    match first_close(s, 0) {
        Some(i) => Some(i + 1),
        None => None,
    }
}

pub proof fn lemma_first_close_bounds(s: Seq<char>, i: int)
    ensures
        first_close(s, i) matches Some(j) ==> i <= j < s.len(),
    decreases s.len() - i,
{
    if 0 <= i < s.len() && !closes_at(s, i) {
        lemma_first_close_bounds(s, i + 1);
    }
}

/// The length of the block that starts at `start`.
pub fn block_len(v: &[char], start: usize) -> (r: Option<usize>)
    requires
        start <= v.len(),
    ensures
        match r {
            Some(n) => block_length(v@.skip(start as int)) == Some(n as int) && 1 <= n <= v.len()
                - start && (v@[start as int] == '{' ==> n >= 2),
            None => block_length(v@.skip(start as int)) is None,
        },
{
    let ghost s = v@.skip(start as int);
    let mut opens: u64 = 0;
    let mut closes: u64 = 0;
    let mut i: usize = start;
    while i < v.len()
        invariant
            start <= i <= v.len(),
            s == v@.skip(start as int),
            opens as int - closes as int == brace_depth(s.take(i - start)),
            opens + closes <= i - start,
            first_close(s, 0) == first_close(s, i - start),
        decreases v.len() - i,
    {
        let c = v[i];
        let k: usize = i - start;
        assert(s.take(k + 1).drop_last() =~= s.take(k as int));
        assert(s[k as int] == c);
        if c == '{' {
            opens += 1;
        } else if c == '}' {
            closes += 1;
            if opens == closes {
                assert(closes_at(s, k as int));
                assert(k == 0 ==> v@[start as int] == '}');
                return Some(k + 1);
            }
        }
        assert(!closes_at(s, k as int));
        i += 1;
    }
    None
}

pub open spec fn selector_char(c: char) -> bool {
    is_digit(c) || ('a' <= c && c <= 'z') || ('A' <= c && c <= 'Z') || c == '.' || c == '-'
        || c == '_'
}

/// `tag`, `.class`, `tag.class` or `.a.b`: the tag (lowered) and the classes;
/// None for any other selector.
pub open spec fn selector(sel: Seq<char>) -> Option<(Option<Seq<char>>, Seq<Seq<char>>)> {
    let parts = split(sel, '.');
    let classes = parts.drop_first();
    if sel.len() == 0 || !(forall|i: int| 0 <= i < sel.len() ==> selector_char(#[trigger] sel[i])) {
        None
    } else if exists|i: int| 0 <= i < classes.len() && (#[trigger] classes[i]).len() == 0 {
        None
    } else {
        Some((if parts[0].len() == 0 { None } else { Some(lower_all(parts[0])) }, classes))
    }
}

fn is_selector_char(c: char) -> (r: bool)
    ensures
        r == selector_char(c),
{
    ('0' <= c && c <= '9') || ('a' <= c && c <= 'z') || ('A' <= c && c <= 'Z') || c == '.' || c
        == '-' || c == '_'
}

pub fn parse_selector(sel: &[char]) -> (r: Option<(Option<Vec<char>>, Vec<Vec<char>>)>)
    ensures
        r matches Some((tag, classes)) ==> classes@.len() <= sel@.len(),
        match r {
            Some((tag, classes)) => selector(sel@) == Some(
                (
                    match tag {
                        Some(t) => Some(t@),
                        None => None::<Seq<char>>,
                    },
                    views(classes@),
                ),
            ),
            None => selector(sel@) is None,
        },
{
    if sel.len() == 0 {
        return None;
    }
    let mut i: usize = 0;
    while i < sel.len()
        invariant
            i <= sel.len(),
            forall|k: int| 0 <= k < i ==> selector_char(#[trigger] sel@[k]),
        decreases sel.len() - i,
    {
        if !is_selector_char(sel[i]) {
            return None;
        }
        i += 1;
    }
    let parts = split_at_char(sel, '.');
    proof {
        crate::text::lemma_split_nonempty(sel@, '.');
    }
    let mut classes: Vec<Vec<char>> = Vec::new();
    let mut k: usize = 1;
    while k < parts.len()
        invariant
            1 <= k <= parts.len(),
            views(parts@) == split(sel@, '.'),
            views(classes@) == views(parts@).drop_first().take(k - 1),
            parts@.len() <= sel@.len() + 1,
            forall|j: int| 0 <= j < k - 1 ==> (#[trigger] views(parts@).drop_first()[j]).len() > 0,
        decreases parts.len() - k,
    {
        if parts[k].len() == 0 {
            assert(views(parts@).drop_first()[k - 1].len() == 0);
            return None;
        }
        let piece = slice(&parts[k], 0, parts[k].len());
        assert(piece@ =~= views(parts@)[k as int]);
        let ghost before = views(classes@);
        classes.push(piece);
        assert(views(classes@) =~= before.push(views(parts@)[k as int]));
        assert(views(parts@).drop_first().take(k as int) =~= views(parts@).drop_first().take(k - 1).push(views(parts@)[k as int]));
        assert(views(classes@) =~= views(parts@).drop_first().take(k as int));
        k += 1;
    }
    assert(views(parts@).drop_first().take(k - 1) =~= views(parts@).drop_first());
    let tag = if parts[0].len() == 0 {
        None
    } else {
        Some(ascii_lowercase(&parts[0]))
    };
    Some((tag, classes))
}


/// Cascade origin: the book's rules beat the reader's defaults whatever
/// their specificity.
#[derive(Clone, Copy, PartialEq, Eq, Structural, Debug)]
pub enum Origin {
    Reader,
    Book,
}

pub open spec fn origin_rank(o: Origin) -> int {
    match o {
        Origin::Reader => 0,
        Origin::Book => 1,
    }
}

pub struct Rule {
    pub tag: Option<Vec<char>>,
    pub classes: Vec<Vec<char>>,
    pub origin: Origin,
    pub specificity: usize,
    pub order: usize,
    pub declared: Declared,
}

/// A rule as the contracts see it.
pub struct RuleView {
    pub tag: Option<Seq<char>>,
    pub classes: Seq<Seq<char>>,
    pub origin: Origin,
    pub specificity: nat,
    pub order: nat,
    pub declared: Declared,
}

pub open spec fn tag_view(tag: Option<Vec<char>>) -> Option<Seq<char>> {
    match tag {
        Some(t) => Some(t@),
        None => None,
    }
}

impl View for Rule {
    type V = RuleView;

    open spec fn view(&self) -> RuleView {
        RuleView {
            tag: tag_view(self.tag),
            classes: views(self.classes@),
            origin: self.origin,
            specificity: self.specificity as nat,
            order: self.order as nat,
            declared: self.declared,
        }
    }
}

/// The rule a selector with `tag` and `classes` gives, `order`-th in its sheet.
pub open spec fn rule_for(
    tag: Option<Seq<char>>,
    classes: Seq<Seq<char>>,
    origin: Origin,
    declared: Declared,
    order: nat,
) -> RuleView {
    RuleView {
        tag: tag,
        classes: classes,
        origin: origin,
        specificity: classes.len() * 10 + if tag is Some { 1nat } else { 0nat },
        order: order,
        declared: declared,
    }
}

/// The rules a comma-separated selector list gives, numbered from `start`;
/// selectors that are not simple are skipped.
pub open spec fn selector_rules(
    selectors: Seq<Seq<char>>,
    origin: Origin,
    declared: Declared,
    start: nat,
) -> Seq<RuleView>
    decreases selectors.len(),
{
    if selectors.len() == 0 {
        Seq::empty()
    } else {
        let before = selector_rules(selectors.drop_last(), origin, declared, start);
        match selector(trim(selectors.last())) {
            Some((tag, classes)) => before.push(
                rule_for(tag, classes, origin, declared, start + before.len()),
            ),
            None => before,
        }
    }
}

/// The rules that the statements in `css` (comments already removed) add
/// to a sheet holding `start` rules. Each statement is a head and a `{...}`
/// block; @-rules, and blocks that declare nothing shown here, add none.
pub open spec fn new_rules(css: Seq<char>, origin: Origin, start: nat) -> Seq<RuleView>
    decreases css.len(),
{
    match find_str(css, seq!['{']) {
        None => Seq::empty(),
        Some(open) => {
            proof {
                lemma_find_str(css, seq!['{']);
            }
            match block_length(css.skip(open)) {
                None => Seq::empty(),
                Some(len) => {
                    proof {
                        lemma_first_close_bounds(css.skip(open), 0);
                    }
                    // Statements such as @charset "UTF-8"; can sit in front of a selector
                    let head = trim(split(css.take(open), ';').last());
                    let declared = declarations(css.subrange(open + 1, open + len - 1));
                    let here = if starts_with(head, seq!['@']) || declared == nothing_declared() {
                        Seq::empty()
                    } else {
                        selector_rules(split(head, ','), origin, declared, start)
                    };
                    here + new_rules(css.skip(open + len), origin, start + here.len())
                },
            }
        },
    }
}


/// The properties the reader shows.
#[derive(Clone, Copy, PartialEq, Eq, Structural, Debug)]
pub enum Property {
    Bold,
    Italic,
    Underline,
    SmallCaps,
    Align,
    Indent,
}

/// A property's value: a switch, or an alignment.
pub enum PropertyValue {
    Flag(bool),
    Alignment(Align),
}

pub open spec fn flag(v: Option<bool>) -> Option<PropertyValue> {
    match v {
        Some(b) => Some(PropertyValue::Flag(b)),
        None => None,
    }
}

/// What `d` sets property `p` to, if anything.
pub open spec fn declared_value(d: Declared, p: Property) -> Option<PropertyValue> {
    match p {
        Property::Bold => flag(d.bold),
        Property::Italic => flag(d.italic),
        Property::Underline => flag(d.underline),
        Property::SmallCaps => flag(d.small_caps),
        Property::Align => match d.align {
            Some(a) => Some(PropertyValue::Alignment(a)),
            None => None,
        },
        Property::Indent => flag(d.indent),
    }
}

/// Property `p` of a computed style.
pub open spec fn computed_value(c: Computed, p: Property) -> PropertyValue {
    match p {
        Property::Bold => PropertyValue::Flag(c.bold),
        Property::Italic => PropertyValue::Flag(c.italic),
        Property::Underline => PropertyValue::Flag(c.underline),
        Property::SmallCaps => PropertyValue::Flag(c.small_caps),
        Property::Align => PropertyValue::Alignment(c.align),
        Property::Indent => PropertyValue::Flag(c.indent),
    }
}

/// Whether a rule applies to an element with this tag and these classes
/// (the words of its class attribute): its tag, if it names one, is the
/// element's, and each of its classes is one of the element's.
pub open spec fn rule_matches(r: RuleView, tag: Seq<char>, cw: Seq<Seq<char>>) -> bool {
    &&& (r.tag is None || r.tag == Some(tag))
    &&& forall|k: int| 0 <= k < r.classes.len() ==> cw.contains(#[trigger] r.classes[k])
}

/// Whether rule `a` (at position `ia`) comes later in the cascade than rule
/// `b` (at `ib`): by origin, then specificity, then source order.
pub open spec fn outranks(a: RuleView, ia: int, b: RuleView, ib: int) -> bool {
    ||| origin_rank(a.origin) > origin_rank(b.origin)
    ||| (origin_rank(a.origin) == origin_rank(b.origin) && a.specificity > b.specificity)
    ||| (origin_rank(a.origin) == origin_rank(b.origin) && a.specificity == b.specificity
        && a.order > b.order)
    ||| (origin_rank(a.origin) == origin_rank(b.origin) && a.specificity == b.specificity
        && a.order == b.order && ia > ib)
}

/// Rule `i` applies to the element and sets property `p`.
pub open spec fn candidate(
    rules: Seq<RuleView>,
    tag: Seq<char>,
    cw: Seq<Seq<char>>,
    p: Property,
    i: int,
) -> bool {
    0 <= i < rules.len() && rule_matches(rules[i], tag, cw) && declared_value(
        rules[i].declared,
        p,
    ) is Some
}

/// Rule `i` is the one that sets property `p`: it applies, sets `p`, and
/// comes after every other rule that does.
pub open spec fn wins(
    rules: Seq<RuleView>,
    tag: Seq<char>,
    cw: Seq<Seq<char>>,
    p: Property,
    i: int,
) -> bool {
    &&& candidate(rules, tag, cw, p, i)
    &&& forall|j: int|
        #![trigger candidate(rules, tag, cw, p, j)]
        candidate(rules, tag, cw, p, j) && j != i ==> outranks(rules[i], i, rules[j], j)
}

/// An element's property `p` inside `parent`: the style attribute's value
/// where the sheet reads style attributes and it sets `p`; otherwise the
/// winning rule's; otherwise the parent's.
pub open spec fn cascaded(
    sheet: StylesheetView,
    parent: Computed,
    tag: Seq<char>,
    class: Seq<char>,
    inline: Seq<char>,
    p: Property,
) -> PropertyValue {
    if sheet.inline && declared_value(declarations(inline), p) is Some {
        declared_value(declarations(inline), p).unwrap()
    } else if rules_value(sheet.rules, tag, words(class), p) is Some {
        rules_value(sheet.rules, tag, words(class), p).unwrap()
    } else {
        computed_value(parent, p)
    }
}

/// At most one rule wins a property.
pub proof fn lemma_one_winner(
    rules: Seq<RuleView>,
    tag: Seq<char>,
    cw: Seq<Seq<char>>,
    p: Property,
    i: int,
    j: int,
)
    requires
        wins(rules, tag, cw, p, i),
        wins(rules, tag, cw, p, j),
    ensures
        i == j,
{
    if i != j {
        assert(candidate(rules, tag, cw, p, j));
        assert(candidate(rules, tag, cw, p, i));
    }
}

/// What the winning rule, if any, sets property `p` to.
pub open spec fn rules_value(
    rules: Seq<RuleView>,
    tag: Seq<char>,
    cw: Seq<Seq<char>>,
    p: Property,
) -> Option<PropertyValue> {
    if exists|i: int| wins(rules, tag, cw, p, i) {
        declared_value(rules[choose|i: int| wins(rules, tag, cw, p, i)].declared, p)
    } else {
        None
    }
}

pub proof fn lemma_leads_value(
    rules: Seq<RuleView>,
    tag: Seq<char>,
    cw: Seq<Seq<char>>,
    p: Property,
    best: Option<usize>,
)
    requires
        leads(rules, tag, cw, p, rules.len() as int, best),
    ensures
        rules_value(rules, tag, cw, p) == match best {
            Some(i) => declared_value(rules[i as int].declared, p),
            None => None,
        },
{
    match best {
        Some(i) => {
            assert(wins(rules, tag, cw, p, i as int));
            let c = choose|j: int| wins(rules, tag, cw, p, j);
            lemma_one_winner(rules, tag, cw, p, i as int, c);
        },
        None => {
            assert forall|j: int| !wins(rules, tag, cw, p, j) by {
                if 0 <= j < rules.len() {
                    assert(!candidate(rules, tag, cw, p, j));
                }
            }
        },
    }
}

pub proof fn lemma_cascade_step(d: Declared, inline: Declared, parent: Computed, p: Property)
    ensures
        computed_value(applied(merged(d, inline), parent), p) == if declared_value(inline, p) is Some {
            declared_value(inline, p).unwrap()
        } else if declared_value(d, p) is Some {
            declared_value(d, p).unwrap()
        } else {
            computed_value(parent, p)
        },
{
}

/// The plain look ignores style attributes: whatever an element's style
/// attribute says, a sheet that does not read them styles it the same.
pub proof fn law_plain_sheet_ignores_style_attributes(
    sheet: StylesheetView,
    parent: Computed,
    tag: Seq<char>,
    class: Seq<char>,
    inline: Seq<char>,
    other: Seq<char>,
    p: Property,
)
    requires
        !sheet.inline,
    ensures
        cascaded(sheet, parent, tag, class, inline, p) == cascaded(sheet, parent, tag, class, other, p),
{
}

/// Styles inherit unless overridden: where no matching rule and no style
/// attribute sets a property, the element keeps its parent's.
pub proof fn law_styles_inherit_unless_overridden(
    sheet: StylesheetView,
    parent: Computed,
    tag: Seq<char>,
    class: Seq<char>,
    inline: Seq<char>,
    p: Property,
)
    requires
        !(exists|i: int| candidate(sheet.rules, tag, words(class), p, i)),
        !sheet.inline || declared_value(declarations(inline), p) is None,
    ensures
        cascaded(sheet, parent, tag, class, inline, p) == computed_value(parent, p),
{
    assert(!(exists|i: int| wins(sheet.rules, tag, words(class), p, i)));
}

/// A style attribute the sheet reads beats every rule.
pub proof fn law_style_attribute_wins(
    sheet: StylesheetView,
    parent: Computed,
    tag: Seq<char>,
    class: Seq<char>,
    inline: Seq<char>,
    p: Property,
)
    requires
        sheet.inline,
        declared_value(declarations(inline), p) is Some,
    ensures
        cascaded(sheet, parent, tag, class, inline, p) == declared_value(declarations(inline), p).unwrap(),
{
}

/// More classes beat fewer whatever the order: of two matching rules from
/// the same origin that set a property, the less specific one never wins.
pub proof fn law_more_classes_beat_fewer(
    rules: Seq<RuleView>,
    tag: Seq<char>,
    cw: Seq<Seq<char>>,
    p: Property,
    i: int,
    j: int,
)
    requires
        candidate(rules, tag, cw, p, i),
        candidate(rules, tag, cw, p, j),
        rules[i].origin == rules[j].origin,
        rules[i].specificity > rules[j].specificity,
    ensures
        !wins(rules, tag, cw, p, j),
{
    assert(candidate(rules, tag, cw, p, i));
}

/// Splitting after a separator adds the rest as one more piece, when the
/// rest holds no separator.
proof fn lemma_split_after(pre: Seq<char>, x: Seq<char>, sep: char)
    requires
        !x.contains(sep),
    ensures
        split(pre + seq![sep] + x, sep) == split(pre, sep).push(x),
    decreases x.len(),
{
    let s = pre + seq![sep] + x;
    if x.len() == 0 {
        assert(s.drop_last() =~= pre);
        assert(x =~= Seq::<char>::empty());
    } else {
        assert(x.drop_last().contains(sep) ==> x.contains(sep)) by {
            if x.drop_last().contains(sep) {
                let k = choose|k: int| 0 <= k < x.drop_last().len() && x.drop_last()[k] == sep;
                assert(x[k] == sep);
            }
        }
        lemma_split_after(pre, x.drop_last(), sep);
        assert(s.drop_last() =~= pre + seq![sep] + x.drop_last());
        assert(s.last() == x.last());
        assert(x.last() != sep) by {
            assert(x[x.len() - 1] == x.last());
        }
        assert(x.drop_last().push(x.last()) =~= x);
    }
}

/// A declaration `name:value`, with no `:` in the name, is that name and
/// value.
proof fn lemma_name_and_value(n: Seq<char>, v: Seq<char>)
    requires
        !n.contains(':'),
    ensures
        name_and_value(n + seq![':'] + v)
            == Some((lower_all(trim(n)), trim(remove_all(lower_all(v), "!important"@)))),
{
    let d = n + seq![':'] + v;
    lemma_find_str(d, seq![':']);
    assert(d.subrange(n.len() as int, n.len() + 1 as int) =~= seq![':']);
    assert(occurs_at(d, seq![':'], n.len() as int));
    match find_str(d, seq![':']) {
        Some(i) => {
            if i < n.len() {
                assert(d.subrange(i, i + 1)[0] == d[i]);
                assert(n[i] == ':');
                assert(false);
            }
            assert(i == n.len());
            assert(d.take(i) =~= n);
            assert(d.skip(i + 1) =~= v);
        },
        None => {},
    }
}

/// `text-align: right` aligns right, in any letter case, with or without
/// `!important`, and as the last declaration of a block it wins over
/// whatever the block declared before it.
pub proof fn law_text_align_right(pre: Seq<char>, n: Seq<char>, v: Seq<char>)
    requires
        !n.contains(':'),
        !n.contains(';'),
        !v.contains(';'),
        lower_all(trim(n)) == "text-align"@,
        trim(remove_all(lower_all(v), "!important"@)) == "right"@,
    ensures
        declarations(n + seq![':'] + v).align == Some(Align::Right),
        declarations(pre + seq![';'] + (n + seq![':'] + v)).align == Some(Align::Right),
{
    let x = n + seq![':'] + v;
    assert(!x.contains(';')) by {
        assert forall|k: int| 0 <= k < x.len() implies x[k] != ';' by {
            if k < n.len() {
                assert(x[k] == n[k]);
            } else if k > n.len() {
                assert(x[k] == v[k - n.len() - 1]);
            }
        }
    }
    lemma_name_and_value(n, v);
    reveal_strlit("right");
    reveal_strlit("center");
    reveal_strlit("-webkit-center");
    assert("right"@ != "center"@) by { assert("right"@[0] != "center"@[0]); }
    assert("right"@ != "-webkit-center"@) by { assert("right"@[0] != "-webkit-center"@[0]); }
    reveal_strlit("text-align");
    reveal_strlit("font-style");
    reveal_strlit("font-weight");
    reveal_strlit("text-decoration");
    reveal_strlit("text-decoration-line");
    reveal_strlit("font-variant");
    reveal_strlit("font-variant-caps");
    let name = "text-align"@;
    assert(name != "font-style"@) by { assert(name[0] != "font-style"@[0]); }
    assert(name != "font-weight"@) by { assert(name[0] != "font-weight"@[0]); }
    assert(name != "text-decoration"@) by { assert(name.len() != "text-decoration"@.len()); }
    assert(name != "text-decoration-line"@) by { assert(name.len() != "text-decoration-line"@.len()); }
    assert(name != "font-variant"@) by { assert(name[0] != "font-variant"@[0]); }
    assert(name != "font-variant-caps"@) by { assert(name[0] != "font-variant-caps"@[0]); }
    assert forall|d: Declared| #[trigger] apply_declaration(d, x).align == Some(Align::Right) by {
        assert(declare(d, name, "right"@).align == Some(Align::Right));
    }
    lemma_split_without_sep(x, ';');
    assert(seq![x].drop_last() =~= Seq::<Seq<char>>::empty());
    assert(seq![x].last() == x);
    assert(apply_declarations(nothing_declared(), Seq::<Seq<char>>::empty()) == nothing_declared());
    assert(apply_declarations(nothing_declared(), seq![x]) == apply_declaration(nothing_declared(), x));
    lemma_split_after(pre, x, ';');
    let ps = split(pre, ';');
    assert(ps.push(x).drop_last() =~= ps);
    assert(apply_declarations(nothing_declared(), ps.push(x))
        == apply_declaration(apply_declarations(nothing_declared(), ps), x));
}

/// The book's rules beat the reader's defaults whatever their specificity:
/// a default never wins a property that a matching rule of the book sets.
pub proof fn law_book_beats_reader(
    rules: Seq<RuleView>,
    tag: Seq<char>,
    cw: Seq<Seq<char>>,
    p: Property,
    book: int,
    reader: int,
)
    requires
        candidate(rules, tag, cw, p, book),
        candidate(rules, tag, cw, p, reader),
        rules[book].origin == Origin::Book,
        rules[reader].origin == Origin::Reader,
    ensures
        !wins(rules, tag, cw, p, reader),
{
    assert(candidate(rules, tag, cw, p, book));
}

/// `best` is the rule that wins `p` among the first `k` rules.
pub open spec fn leads(
    rules: Seq<RuleView>,
    tag: Seq<char>,
    cw: Seq<Seq<char>>,
    p: Property,
    k: int,
    best: Option<usize>,
) -> bool {
    match best {
        Some(i) => {
            &&& i < k
            &&& candidate(rules, tag, cw, p, i as int)
            &&& forall|j: int|
                #![trigger candidate(rules, tag, cw, p, j)]
                0 <= j < k && candidate(rules, tag, cw, p, j) && j != i ==> outranks(
                    rules[i as int],
                    i as int,
                    rules[j],
                    j,
                )
        },
        None => forall|j: int|
            #![trigger candidate(rules, tag, cw, p, j)]
            0 <= j < k ==> !candidate(rules, tag, cw, p, j),
    }
}

/// A stylesheet as the contracts see it.
pub struct StylesheetView {
    pub rules: Seq<RuleView>,
    /// Whether style="" attributes count
    pub inline: bool,
}

/// The reader's defaults, which a book's stylesheet can override.
pub const READER_CSS: &'static str = "
    b, strong, th { font-weight: bold }
    i, em, cite, dfn, var { font-style: italic }
    u, ins { text-decoration: underline }
    h1, h2, h3, h4, h5, h6 { font-weight: bold }
    h1, h2, h3, center { text-align: center }
";

pub struct Stylesheet {
    rules: Vec<Rule>,
    // Whether style="" attributes count; the plain look ignores them
    inline: bool,
}

impl View for Stylesheet {
    type V = StylesheetView;

    closed spec fn view(&self) -> StylesheetView {
        StylesheetView { rules: self.rules@.map_values(|r: Rule| r@), inline: self.inline }
    }
}

impl Stylesheet {
    /// The reader's defaults alone.
    pub fn new() -> (sheet: Self)
        ensures
            sheet@.rules == new_rules(without_comments(READER_CSS@), Origin::Reader, 0),
            sheet@.inline,
    {
        let mut sheet = Stylesheet { rules: Vec::new(), inline: true };
        proof {
            reveal_strlit("
    b, strong, th { font-weight: bold }
    i, em, cite, dfn, var { font-style: italic }
    u, ins { text-decoration: underline }
    h1, h2, h3, h4, h5, h6 { font-weight: bold }
    h1, h2, h3, center { text-align: center }
");
        }
        let css = chars_of(READER_CSS);
        sheet.add_rules(&css, Origin::Reader);
        assert(sheet@.rules =~= Seq::<RuleView>::empty() + new_rules(
            without_comments(READER_CSS@),
            Origin::Reader,
            0,
        ));
        sheet
    }

    /// The reader's defaults, ignoring everything the book says about style.
    pub fn plain() -> (sheet: Self)
        ensures
            sheet@.rules == new_rules(without_comments(READER_CSS@), Origin::Reader, 0),
            !sheet@.inline,
    {
        let sheet = Stylesheet::new();
        Stylesheet { inline: false, ..sheet }
    }

    /// Adds a book's stylesheet after the ones already added.
    pub fn add(&mut self, css: &str)
        requires
            css@.len() <= usize::MAX / 16,
        ensures
            final(self)@.inline == old(self)@.inline,
            final(self)@.rules == old(self)@.rules + new_rules(
                without_comments(css@),
                Origin::Book,
                old(self)@.rules.len(),
            ),
    {
        let chars = chars_of(css);
        self.add_rules(&chars, Origin::Book);
    }

    fn add_rules(&mut self, css: &[char], origin: Origin)
        requires
            css@.len() <= usize::MAX / 16,
        ensures
            final(self)@.inline == old(self)@.inline,
            final(self)@.rules == old(self)@.rules + new_rules(
                without_comments(css@),
                origin,
                old(self)@.rules.len(),
            ),
    {
        let text = strip_comments(css);
        let brace: Vec<char> = vec!['{'];
        assert(brace@ =~= seq!['{']);
        let ghost old_rules = self@.rules;
        let mut pos: usize = 0;
        assert(text@.skip(0) =~= text@);
        while pos < text.len()
            invariant
                pos <= text@.len(),
                text@.len() <= usize::MAX / 16,
                brace@ == seq!['{'],
                old_rules == old(self)@.rules,
                text@ == without_comments(css@),
                self@.inline == old(self)@.inline,
                self@.rules + new_rules(text@.skip(pos as int), origin, self@.rules.len())
                    == old_rules + new_rules(text@, origin, old_rules.len()),
            decreases text.len() - pos,
        {
            let ghost rest = text@.skip(pos as int);
            let ghost start = self@.rules.len();
            match find_in(&text, pos, &brace) {
                None => {
                    assert(new_rules(rest, origin, start) == Seq::<RuleView>::empty());
                    assert(self@.rules =~= self@.rules + Seq::<RuleView>::empty());
                    return;
                },
                Some(open) => {
                    proof {
                        lemma_find_str(rest, seq!['{']);
                    }
                    assert(rest.skip(open - pos) =~= text@.skip(open as int));
                    assert(rest.subrange(open - pos, open - pos + 1) =~= seq![text@[open as int]]);
                    assert(seq![text@[open as int]][0] == text@[open as int]);
                    assert(text@[open as int] == '{');
                    match block_len(&text, open) {
                        None => {
                            assert(new_rules(rest, origin, start) == Seq::<RuleView>::empty());
                            assert(self@.rules =~= self@.rules + Seq::<RuleView>::empty());
                            return;
                        },
                        Some(len) => {
                            let before = slice(&text, pos, open);
                            assert(before@ =~= rest.take(open - pos));
                            let pieces = split_at_char(&before, ';');
                            let head = trimmed(&pieces[pieces.len() - 1]);
                            let body = slice(&text, open + 1, open + len - 1);
                            assert(body@ =~= rest.subrange(open - pos + 1, open - pos + len - 1));
                            let declared = parse_declarations(&body);
                            let ghost here = if starts_with(head@, seq!['@'])
                                || declared == nothing_declared() {
                                Seq::<RuleView>::empty()
                            } else {
                                selector_rules(split(head@, ','), origin, declared, start)
                            };
                            let ghost rules_before = self@.rules;
                            proof {
                                crate::text::lemma_starts_with_char(head@, '@');
                            }
                            if !(head.len() > 0 && head[0] == '@') && !declared.is_empty() {
                                assert(!starts_with(head@, seq!['@']));
                                self.add_selectors(&head, origin, declared);
                            } else {
                                assert(self@.rules =~= rules_before + here);
                            }
                            assert(rest.skip(open - pos + len) =~= text@.skip(open + len));
                            assert(self@.rules + new_rules(text@.skip(open + len), origin, self@.rules.len())
                                =~= rules_before + (here + new_rules(rest.skip(open - pos + len), origin, start + here.len())));
                            pos = open + len;
                        },
                    }
                },
            }
        }
        assert(text@.skip(pos as int) =~= Seq::<char>::empty());
        assert(self@.rules =~= self@.rules + Seq::<RuleView>::empty());
    }

    /// Whether property `p` of rule `k`'s declarations is set.
    fn sets(d: &Declared, p: Property) -> (r: bool)
        ensures
            r == (declared_value(*d, p) is Some),
    {
        match p {
            Property::Bold => d.bold.is_some(),
            Property::Italic => d.italic.is_some(),
            Property::Underline => d.underline.is_some(),
            Property::SmallCaps => d.small_caps.is_some(),
            Property::Align => d.align.is_some(),
            Property::Indent => d.indent.is_some(),
        }
    }

    /// Whether rule `k` comes later in the cascade than rule `b`, for `b < k`.
    fn later(&self, k: usize, b: usize) -> (r: bool)
        requires
            b < k < self@.rules.len(),
        ensures
            r == outranks(self@.rules[k as int], k as int, self@.rules[b as int], b as int),
    {
        let rk = &self.rules[k];
        let rb = &self.rules[b];
        let ok: u8 = match rk.origin {
            Origin::Reader => 0,
            Origin::Book => 1,
        };
        let ob: u8 = match rb.origin {
            Origin::Reader => 0,
            Origin::Book => 1,
        };
        if ok != ob {
            return ok > ob;
        }
        if rk.specificity != rb.specificity {
            return rk.specificity > rb.specificity;
        }
        rk.order >= rb.order
    }

    /// Whether rule `k` applies to an element with this tag and these classes.
    fn rule_applies(&self, k: usize, tag: &[char], classes: &Vec<Vec<char>>) -> (r: bool)
        requires
            k < self@.rules.len(),
        ensures
            r == rule_matches(self@.rules[k as int], tag@, class_words_seq(classes@)),
    {
        let rule = &self.rules[k];
        let tag_ok = match &rule.tag {
            Some(t) => eq_chars(t, tag),
            None => true,
        };
        if !tag_ok {
            return false;
        }
        let mut i: usize = 0;
        while i < rule.classes.len()
            invariant
                i <= rule.classes@.len(),
                k < self@.rules.len(),
                *rule == self.rules@[k as int],
                forall|j: int| 0 <= j < i ==> views(classes@).contains(#[trigger] views(rule.classes@)[j]),
            decreases rule.classes.len() - i,
        {
            if !contains_chars(classes, &rule.classes[i]) {
                assert(self@.rules[k as int].classes[i as int] == views(rule.classes@)[i as int]);
                return false;
            }
            i += 1;
        }
        true
    }

    /// The rule that wins `p` among the first `k + 1`, from the one among the first `k`.
    fn lead(&self, tag: &[char], classes: &Vec<Vec<char>>, k: usize, applies: bool, p: Property, best: Option<usize>) -> (r: Option<usize>)
        requires
            k < self@.rules.len(),
            applies == rule_matches(self@.rules[k as int], tag@, class_words_seq(classes@)),
            leads(self@.rules, tag@, class_words_seq(classes@), p, k as int, best),
        ensures
            leads(self@.rules, tag@, class_words_seq(classes@), p, k + 1, r),
    {
        let ghost rules = self@.rules;
        let ghost cls = class_words_seq(classes@);
        if !(applies && Self::sets(&self.rules[k].declared, p)) {
            assert(!candidate(rules, tag@, cls, p, k as int));
            return best;
        }
        assert(candidate(rules, tag@, cls, p, k as int));
        match best {
            None => Some(k),
            Some(b) => {
                if self.later(k, b) {
                    Some(k)
                } else {
                    Some(b)
                }
            },
        }
    }

    /// What the winning rules set, property by property.
    fn winners(&self, tag_v: &[char], classes: &Vec<Vec<char>>) -> (d: Declared)
        ensures
            forall|p: Property|
                declared_value(d, p) == rules_value(self@.rules, tag_v@, class_words_seq(classes@), p),
    {
        let ghost rules = self@.rules;
        let ghost cls = class_words_seq(classes@);
        let mut b_bold: Option<usize> = None;
        let mut b_italic: Option<usize> = None;
        let mut b_underline: Option<usize> = None;
        let mut b_small_caps: Option<usize> = None;
        let mut b_align: Option<usize> = None;
        let mut b_indent: Option<usize> = None;
        let mut k: usize = 0;
        while k < self.rules.len()
            invariant
                k <= self@.rules.len(),
                rules == self@.rules,
                cls == class_words_seq(classes@),
                leads(rules, tag_v@, cls, Property::Bold, k as int, b_bold),
                leads(rules, tag_v@, cls, Property::Italic, k as int, b_italic),
                leads(rules, tag_v@, cls, Property::Underline, k as int, b_underline),
                leads(rules, tag_v@, cls, Property::SmallCaps, k as int, b_small_caps),
                leads(rules, tag_v@, cls, Property::Align, k as int, b_align),
                leads(rules, tag_v@, cls, Property::Indent, k as int, b_indent),
            decreases self.rules.len() - k,
        {
            let applies = self.rule_applies(k, tag_v, classes);
            b_bold = self.lead(tag_v, classes, k, applies, Property::Bold, b_bold);
            b_italic = self.lead(tag_v, classes, k, applies, Property::Italic, b_italic);
            b_underline = self.lead(tag_v, classes, k, applies, Property::Underline, b_underline);
            b_small_caps = self.lead(tag_v, classes, k, applies, Property::SmallCaps, b_small_caps);
            b_align = self.lead(tag_v, classes, k, applies, Property::Align, b_align);
            b_indent = self.lead(tag_v, classes, k, applies, Property::Indent, b_indent);
            k += 1;
        }
        let mut d = Declared::default();
        if let Some(i) = b_bold {
            d.bold = self.rules[i].declared.bold;
        }
        if let Some(i) = b_italic {
            d.italic = self.rules[i].declared.italic;
        }
        if let Some(i) = b_underline {
            d.underline = self.rules[i].declared.underline;
        }
        if let Some(i) = b_small_caps {
            d.small_caps = self.rules[i].declared.small_caps;
        }
        if let Some(i) = b_align {
            d.align = self.rules[i].declared.align;
        }
        if let Some(i) = b_indent {
            d.indent = self.rules[i].declared.indent;
        }
        proof {
            lemma_leads_value(rules, tag_v@, cls, Property::Bold, b_bold);
            lemma_leads_value(rules, tag_v@, cls, Property::Italic, b_italic);
            lemma_leads_value(rules, tag_v@, cls, Property::Underline, b_underline);
            lemma_leads_value(rules, tag_v@, cls, Property::SmallCaps, b_small_caps);
            lemma_leads_value(rules, tag_v@, cls, Property::Align, b_align);
            lemma_leads_value(rules, tag_v@, cls, Property::Indent, b_indent);
            assert forall|p: Property|
                declared_value(d, p) == rules_value(rules, tag_v@, cls, p) by {
                match p {
                    Property::Bold => {},
                    Property::Italic => {},
                    Property::Underline => {},
                    Property::SmallCaps => {},
                    Property::Align => {},
                    Property::Indent => {},
                }
            }
        }
        d
    }

    /// An element's style inside `parent`: matching rules in cascade order
    /// (origin, then specificity, then source order), then its style attribute.
    pub fn compute(&self, parent: &Computed, tag: &str, class: &str, inline: &str) -> (r: Computed)
        ensures
            forall|p: Property|
                computed_value(r, p) == cascaded(self@, *parent, tag@, class@, inline@, p),
    {
        let tag_v = chars_of(tag);
        let class_v = chars_of(class);
        let classes = split_words(&class_v);
        let mut declared = self.winners(&tag_v, &classes);
        let ghost from_rules = declared;
        let inline_v = chars_of(inline);
        let inline_d = if self.inline {
            parse_declarations(&inline_v)
        } else {
            Declared::default()
        };
        declared.merge(&inline_d);
        let r = declared.apply(*parent);
        proof {
            assert forall|p: Property|
                computed_value(r, p) == cascaded(self@, *parent, tag@, class@, inline@, p) by {
                lemma_cascade_step(from_rules, inline_d, *parent, p);
            }
        }
        r
    }

    /// Adds a rule for each simple selector in a comma-separated list.
    fn add_selectors(&mut self, head: &[char], origin: Origin, declared: Declared)
        requires
            head@.len() <= usize::MAX / 16,
        ensures
            final(self)@.inline == old(self)@.inline,
            final(self)@.rules == old(self)@.rules + selector_rules(
                split(head@, ','),
                origin,
                declared,
                old(self)@.rules.len(),
            ),
    {
        let pieces = split_at_char(head, ',');
        let ghost old_rules = self@.rules;
        let mut k: usize = 0;
        while k < pieces.len()
            invariant
                k <= pieces@.len(),
                head@.len() <= usize::MAX / 16,
                views(pieces@) == split(head@, ','),
                forall|j: int| 0 <= j < pieces@.len() ==> (#[trigger] pieces@[j])@.len() <= head@.len(),
                self@.inline == old(self)@.inline,
                self@.rules == old_rules + selector_rules(
                    views(pieces@).take(k as int),
                    origin,
                    declared,
                    old_rules.len(),
                ),
            decreases pieces.len() - k,
        {
            let sel = trimmed(&pieces[k]);
            assert(views(pieces@).take(k + 1).drop_last() =~= views(pieces@).take(k as int));
            assert(views(pieces@).take(k + 1).last() == pieces@[k as int]@);
            let ghost prior = selector_rules(views(pieces@).take(k as int), origin, declared, old_rules.len());
            match parse_selector(&sel) {
                Some((tag, classes)) => {
                    let specificity = classes.len() * 10 + if tag.is_some() { 1 } else { 0 };
                    let order = self.rules.len();
                    let rule = Rule { tag, classes, origin, specificity, order, declared };
                    let ghost before = self@.rules;
                    self.rules.push(rule);
                    assert(self@.rules =~= before.push(rule@));
                    assert(rule@ == rule_for(tag_view(tag), views(classes@), origin, declared, old_rules.len() + prior.len()));
                },
                None => {},
            }
            k += 1;
        }
        assert(views(pieces@).take(pieces.len() as int) =~= views(pieces@));
    }
}

} // verus!
