//! What the reader draws: the theme's colors, the page with its footer, and
//! the two menus, as pieces of text placed on the screen. The terminal loop
//! turns each piece into cursor moves, colors and text.

use vstd::prelude::*;
use crate::config::{Alignment, Config, Theme};
use crate::i18n::{tr, translation, Language, Text};
use crate::images::MARKER;
use crate::settings::{row_order, row_text, row_value, row_at, MAIN_ROWS, ROW_COUNT};
use crate::text::{chars_of, decimal, is_digit, lemma_decimal_digits, push_all, push_decimal, push_str, string_of};
use crate::ui::AppState;
use crate::width::{columns, display_width, lemma_truncated_keeps_out, room, spaces, truncated, truncate, width, pad_left, pad_right, center};

verus! {

#[derive(PartialEq, Eq, Structural, Clone, Copy, Debug)]
pub enum Color {
    /// The terminal's own color
    Reset,
    DarkGrey,
    Rgb { r: u8, g: u8, b: u8 },
}

#[derive(PartialEq, Eq, Structural, Clone, Copy, Debug)]
pub struct Palette {
    pub bg: Color,
    pub fg: Color,
    pub accent: Color,
    pub dim: Color,
}

pub open spec fn rgb(r: u8, g: u8, b: u8) -> Color {
    Color::Rgb { r, g, b }
}

/// The colors of each theme.
pub open spec fn theme_palette(theme: Theme) -> Palette {
    match theme {
        Theme::Default => Palette { bg: Color::Reset, fg: Color::Reset, accent: rgb(90, 160, 250), dim: Color::DarkGrey },
        Theme::Sepia => Palette { bg: rgb(244, 236, 216), fg: rgb(91, 70, 54), accent: rgb(217, 108, 6), dim: rgb(180, 160, 140) },
        Theme::Dracula => Palette { bg: rgb(40, 42, 54), fg: rgb(248, 248, 242), accent: rgb(189, 147, 249), dim: rgb(98, 114, 164) },
        Theme::Hacker => Palette { bg: rgb(0, 0, 0), fg: rgb(0, 255, 0), accent: rgb(0, 180, 0), dim: rgb(0, 100, 0) },
        Theme::Nord => Palette { bg: rgb(46, 52, 64), fg: rgb(236, 239, 244), accent: rgb(136, 192, 208), dim: rgb(76, 86, 106) },
        Theme::SolarizedLight => Palette { bg: rgb(253, 246, 227), fg: rgb(101, 123, 131), accent: rgb(38, 139, 210), dim: rgb(147, 161, 161) },
        Theme::SolarizedDark => Palette { bg: rgb(0, 43, 54), fg: rgb(131, 148, 150), accent: rgb(42, 161, 152), dim: rgb(88, 110, 117) },
        Theme::Gruvbox => Palette { bg: rgb(40, 40, 40), fg: rgb(235, 219, 178), accent: rgb(254, 128, 25), dim: rgb(146, 131, 116) },
        Theme::Monokai => Palette { bg: rgb(39, 40, 34), fg: rgb(248, 248, 242), accent: rgb(249, 38, 114), dim: rgb(117, 113, 94) },
        Theme::Catppuccin => Palette { bg: rgb(30, 30, 46), fg: rgb(205, 214, 244), accent: rgb(203, 166, 247), dim: rgb(147, 153, 178) },
        Theme::Oceanic => Palette { bg: rgb(27, 43, 52), fg: rgb(216, 222, 233), accent: rgb(102, 153, 204), dim: rgb(101, 115, 126) },
    }
}

/// The theme's colors.
pub fn get_palette(theme: &Theme) -> (p: Palette)
    ensures
        p == theme_palette(*theme),
{
    match theme {
        Theme::Default => Palette {
            bg: Color::Reset,
            fg: Color::Reset,
            accent: Color::Rgb { r: 90, g: 160, b: 250 },
            dim: Color::DarkGrey,
        },
        Theme::Sepia => Palette {
            bg: Color::Rgb { r: 244, g: 236, b: 216 },
            fg: Color::Rgb { r: 91, g: 70, b: 54 },
            accent: Color::Rgb { r: 217, g: 108, b: 6 },
            dim: Color::Rgb { r: 180, g: 160, b: 140 },
        },
        Theme::Dracula => Palette {
            bg: Color::Rgb { r: 40, g: 42, b: 54 },
            fg: Color::Rgb { r: 248, g: 248, b: 242 },
            accent: Color::Rgb { r: 189, g: 147, b: 249 },
            dim: Color::Rgb { r: 98, g: 114, b: 164 },
        },
        Theme::Hacker => Palette {
            bg: Color::Rgb { r: 0, g: 0, b: 0 },
            fg: Color::Rgb { r: 0, g: 255, b: 0 },
            accent: Color::Rgb { r: 0, g: 180, b: 0 },
            dim: Color::Rgb { r: 0, g: 100, b: 0 },
        },
        Theme::Nord => Palette {
            bg: Color::Rgb { r: 46, g: 52, b: 64 },
            fg: Color::Rgb { r: 236, g: 239, b: 244 },
            accent: Color::Rgb { r: 136, g: 192, b: 208 },
            dim: Color::Rgb { r: 76, g: 86, b: 106 },
        },
        Theme::SolarizedLight => Palette {
            bg: Color::Rgb { r: 253, g: 246, b: 227 },
            fg: Color::Rgb { r: 101, g: 123, b: 131 },
            accent: Color::Rgb { r: 38, g: 139, b: 210 },
            dim: Color::Rgb { r: 147, g: 161, b: 161 },
        },
        Theme::SolarizedDark => Palette {
            bg: Color::Rgb { r: 0, g: 43, b: 54 },
            fg: Color::Rgb { r: 131, g: 148, b: 150 },
            accent: Color::Rgb { r: 42, g: 161, b: 152 },
            dim: Color::Rgb { r: 88, g: 110, b: 117 },
        },
        Theme::Gruvbox => Palette {
            bg: Color::Rgb { r: 40, g: 40, b: 40 },
            fg: Color::Rgb { r: 235, g: 219, b: 178 },
            accent: Color::Rgb { r: 254, g: 128, b: 25 },
            dim: Color::Rgb { r: 146, g: 131, b: 116 },
        },
        Theme::Monokai => Palette {
            bg: Color::Rgb { r: 39, g: 40, b: 34 },
            fg: Color::Rgb { r: 248, g: 248, b: 242 },
            accent: Color::Rgb { r: 249, g: 38, b: 114 },
            dim: Color::Rgb { r: 117, g: 113, b: 94 },
        },
        Theme::Catppuccin => Palette {
            bg: Color::Rgb { r: 30, g: 30, b: 46 },
            fg: Color::Rgb { r: 205, g: 214, b: 244 },
            accent: Color::Rgb { r: 203, g: 166, b: 247 },
            dim: Color::Rgb { r: 147, g: 153, b: 178 },
        },
        Theme::Oceanic => Palette {
            bg: Color::Rgb { r: 27, g: 43, b: 52 },
            fg: Color::Rgb { r: 216, g: 222, b: 233 },
            accent: Color::Rgb { r: 102, g: 153, b: 204 },
            dim: Color::Rgb { r: 101, g: 115, b: 126 },
        },
    }
}

/// The color half-block pictures blend their transparent pixels into: the
/// theme's background, black on the terminal's own.
pub fn background(p: &Palette) -> (r: (u8, u8, u8))
    ensures
        r == (match p.bg {
            Color::Rgb { r, g, b } => (r, g, b),
            _ => (0u8, 0u8, 0u8),
        }),
{
    match p.bg {
        Color::Rgb { r, g, b } => (r, g, b),
        _ => (0, 0, 0),
    }
}

/// Which of the palette's colors a piece uses.
#[derive(PartialEq, Eq, Structural, Clone, Copy, Debug)]
pub enum Ink {
    Fg,
    Bg,
    Accent,
    Dim,
}

/// Text drawn in one style: at a cell, or where the last piece ended.
#[derive(Debug)]
pub struct Piece {
    pub at: Option<(u16, u16)>,
    pub fg: Ink,
    pub bg: Ink,
    pub bold: bool,
    pub text: String,
}

pub struct PieceView {
    pub at: Option<(u16, u16)>,
    pub fg: Ink,
    pub bg: Ink,
    pub bold: bool,
    pub text: Seq<char>,
}

impl View for Piece {
    type V = PieceView;

    open spec fn view(&self) -> PieceView {
        PieceView { at: self.at, fg: self.fg, bg: self.bg, bold: self.bold, text: self.text@ }
    }
}

pub open spec fn pieces_view(v: Seq<Piece>) -> Seq<PieceView> {
    v.map_values(|p: Piece| p@)
}

pub open spec fn piece(at: Option<(u16, u16)>, fg: Ink, bg: Ink, bold: bool, text: Seq<char>) -> PieceView {
    PieceView { at, fg, bg, bold, text }
}

fn make_piece(at: Option<(u16, u16)>, fg: Ink, bg: Ink, bold: bool, text: Vec<char>) -> (p: Piece)
    ensures
        p@ == piece(at, fg, bg, bold, text@),
{
    Piece { at, fg, bg, bold, text: string_of(&text) }
}

/// `n` copies of `c`.
pub open spec fn repeated(c: char, n: nat) -> Seq<char> {
    Seq::new(n, |i: int| c)
}

fn push_repeated(out: &mut Vec<char>, c: char, n: usize)
    ensures
        final(out)@ == old(out)@ + repeated(c, n as nat),
{
    let ghost start = out@;
    let mut i: usize = 0;
    while i < n
        invariant
            i <= n,
            out@ == start + repeated(c, i as nat),
        decreases n - i,
    {
        out.push(c);
        i += 1;
        assert(out@ =~= start + repeated(c, i as nat));
    }
}

// ---------------------------------------------------------------- footer

/// Parts joined with single spaces.
pub open spec fn joined(parts: Seq<Seq<char>>) -> Seq<char>
    decreases parts.len(),
{
    if parts.len() == 0 {
        Seq::empty()
    } else if parts.len() == 1 {
        parts[0]
    } else {
        joined(parts.drop_last()) + seq![' '] + parts.last()
    }
}

/// The footer's parts between its dashes.
pub open spec fn framed(parts: Seq<Seq<char>>) -> Seq<char> {
    "--- "@ + joined(parts) + " ---"@
}

/// A progress bar of `length` cells, `filled` of them (at most all) full.
pub open spec fn bar(filled: nat, length: nat) -> Seq<char> {
    let full = if filled < length { filled } else { length };
    seq!['['] + repeated('█', full) + repeated('░', (length - full) as nat) + seq![']']
}

/// "(chapter/chapters)", counting chapters from one.
pub open spec fn location(index: nat, chapters: nat) -> Seq<char> {
    seq!['('] + decimal(index + 1) + seq!['/'] + decimal(chapters) + seq![')']
}

/// What the footer shows, in order: the chapter's title, the progress bar
/// with `filled` full cells, the percentage `percent` read, and the
/// chapter's place in the book, each where the settings ask for it.
pub open spec fn footer_parts(cfg: Config, title: Seq<char>, filled: nat, percent: Seq<char>, index: nat, chapters: nat) -> Seq<Seq<char>> {
    (if cfg.show_chapter_title { seq![title] } else { Seq::empty() })
    + (if cfg.show_progress_bar { seq![bar(filled, cfg.progress_bar_length as nat)] } else { Seq::empty() })
    + (if cfg.show_progress_percentage { seq![percent + seq!['%']] } else { Seq::empty() })
    + (if cfg.show_chapter_location { seq![location(index, chapters)] } else { Seq::empty() })
}

/// The parts with the chapter title shortened, or dropped when nothing of
/// it is left, so the footer fits `max_len` columns where it can: the
/// numbers are what the footer is for.
pub open spec fn shortened(parts: Seq<Seq<char>>, max_len: nat, has_title: bool) -> Seq<Seq<char>> {
    if display_width(framed(parts)) > max_len && has_title && parts.len() > 0 {
        let overflow = display_width(framed(parts)) - max_len;
        let room = if display_width(parts[0]) > overflow { display_width(parts[0]) - overflow } else { 0 };
        if truncated(parts[0], room as nat).len() == 0 {
            parts.drop_first()
        } else {
            parts.update(0, truncated(parts[0], room as nat))
        }
    } else {
        parts
    }
}

/// Shortening the footer only ever touches the chapter title: every part
/// after it, the numbers the footer is for, is kept as it was.
pub proof fn law_footer_keeps_the_numbers(parts: Seq<Seq<char>>, max_len: nat, has_title: bool)
    requires
        parts.len() > 0,
    ensures
        shortened(parts, max_len, has_title).len() >= parts.len() - 1,
        shortened(parts, max_len, has_title).skip(shortened(parts, max_len, has_title).len() - (parts.len() - 1))
            == parts.skip(1),
{
    let r = shortened(parts, max_len, has_title);
    if display_width(framed(parts)) > max_len && has_title {
        let overflow = display_width(framed(parts)) - max_len;
        let room = if display_width(parts[0]) > overflow { display_width(parts[0]) - overflow } else { 0 };
        if truncated(parts[0], room as nat).len() == 0 {
            assert(r.skip(0) =~= parts.skip(1));
        } else {
            assert(r.skip(1) =~= parts.skip(1));
        }
    } else {
        assert(r.skip(1) =~= parts.skip(1));
    }
}

/// Columns the footer may take: the window less the left margin.
pub open spec fn footer_room(cfg: Config, term_cols: u16) -> nat {
    if term_cols > cfg.margin_left { (term_cols - cfg.margin_left) as nat } else { 0 }
}

/// The footer's text: its parts shortened, then cut to the room left.
pub open spec fn footer_text(parts: Seq<Seq<char>>, cfg: Config, term_cols: u16) -> Seq<char> {
    truncated(framed(shortened(parts, footer_room(cfg, term_cols), cfg.show_chapter_title)), footer_room(cfg, term_cols))
}

/// The width the text is laid out to, before the lower bound of ten.
pub open spec fn layout_width(cfg: Config, term_cols: u16) -> int {
    let room = term_cols - cfg.margin_left - cfg.margin_right;
    let room = if room < 0 { 0 } else { room };
    if cfg.max_width < room { cfg.max_width as int } else { room }
}

/// Spaces before the footer: the left margin, and for centered or
/// right-aligned footers the room the text leaves beside it.
pub open spec fn footer_padding(cfg: Config, term_cols: u16, len: int) -> int {
    let lw = layout_width(cfg, term_cols);
    match cfg.footer_align {
        Alignment::Left => cfg.margin_left as int,
        Alignment::Center => if lw > len { cfg.margin_left + (lw - len) / 2 } else { cfg.margin_left as int },
        Alignment::Right => if lw > len { cfg.margin_left + (lw - len) } else { cfg.margin_left as int },
    }
}

fn join_parts(parts: &Vec<Vec<char>>) -> (r: Vec<char>)
    ensures
        r@ == framed(crate::text::views(parts@)),
{
    let mut out: Vec<char> = Vec::new();
    push_str(&mut out, "--- ");
    let ghost head = out@;
    let mut i: usize = 0;
    while i < parts.len()
        invariant
            i <= parts.len(),
            head == "--- "@,
            out@ == head + joined(crate::text::views(parts@).take(i as int)),
        decreases parts.len() - i,
    {
        let ghost before = out@;
        if i > 0 {
            out.push(' ');
        }
        push_all(&mut out, &parts[i]);
        proof {
            let v = crate::text::views(parts@);
            assert(v.take(i + 1).drop_last() =~= v.take(i as int));
            if i == 0 {
                assert(v.take(1) =~= seq![v[0]]);
                assert(joined(v.take(0)) =~= Seq::<char>::empty());
            }
        }
        i += 1;
        assert(out@ =~= head + joined(crate::text::views(parts@).take(i as int)));
    }
    assert(crate::text::views(parts@).take(parts.len() as int) =~= crate::text::views(parts@));
    push_str(&mut out, " ---");
    out
}

fn width_of(v: &Vec<char>) -> (r: usize)
    ensures
        r == display_width(v@),
        !v@.contains('\x1b') ==> r == columns(v@),
{
    let s = string_of(v);
    width(s.as_str())
}

fn truncate_chars(v: &Vec<char>, max: usize) -> (r: Vec<char>)
    ensures
        r@ == truncated(v@, max as nat),
        !v@.contains('\x1b') ==> display_width(v@) == columns(v@),
        !v@.contains('\x1b') ==> columns(r@) <= max && !r@.contains('\x1b'),
{
    let s = string_of(v);
    let t = truncate(s.as_str(), max);
    chars_of(t.as_str())
}

fn bar_chars(filled: usize, length: usize) -> (r: Vec<char>)
    ensures
        r@ == bar(filled as nat, length as nat),
{
    let full = if filled < length { filled } else { length };
    let mut b: Vec<char> = Vec::new();
    b.push('[');
    push_repeated(&mut b, '█', full);
    push_repeated(&mut b, '░', length - full);
    b.push(']');
    assert(b@ =~= bar(filled as nat, length as nat));
    b
}

fn location_chars(index: usize, chapters: usize) -> (r: Vec<char>)
    requires
        index < usize::MAX,
    ensures
        r@ == location(index as nat, chapters as nat),
{
    let mut l: Vec<char> = Vec::new();
    l.push('(');
    push_decimal(&mut l, (index + 1) as u64);
    l.push('/');
    push_decimal(&mut l, chapters as u64);
    l.push(')');
    assert(l@ =~= location(index as nat, chapters as nat));
    l
}

fn push_part(parts: &mut Vec<Vec<char>>, part: Vec<char>)
    ensures
        crate::text::views(final(parts)@) == crate::text::views(old(parts)@).push(part@),
{
    parts.push(part);
    assert(crate::text::views(parts@) =~= crate::text::views(old(parts)@).push(part@));
}

fn footer_pieces(cfg: &Config, title: &str, filled: usize, percent: &str, index: usize, chapters: usize) -> (r: Vec<Vec<char>>)
    requires
        index < usize::MAX,
    ensures
        crate::text::views(r@) == footer_parts(*cfg, title@, filled as nat, percent@, index as nat, chapters as nat),
{
    let mut parts: Vec<Vec<char>> = Vec::new();
    let ghost p0 = crate::text::views(parts@);
    assert(p0 =~= Seq::<Seq<char>>::empty());
    if cfg.show_chapter_title {
        push_part(&mut parts, chars_of(title));
    }
    let ghost p1 = crate::text::views(parts@);
    if cfg.show_progress_bar {
        push_part(&mut parts, bar_chars(filled, cfg.progress_bar_length));
    }
    let ghost p2 = crate::text::views(parts@);
    if cfg.show_progress_percentage {
        let mut p = chars_of(percent);
        p.push('%');
        assert(p@ =~= percent@ + seq!['%']);
        push_part(&mut parts, p);
    }
    let ghost p3 = crate::text::views(parts@);
    if cfg.show_chapter_location {
        push_part(&mut parts, location_chars(index, chapters));
    }
    proof {
        let t: Seq<Seq<char>> = if cfg.show_chapter_title { seq![title@] } else { Seq::empty() };
        let b: Seq<Seq<char>> = if cfg.show_progress_bar { seq![bar(filled as nat, cfg.progress_bar_length as nat)] } else { Seq::empty() };
        let c: Seq<Seq<char>> = if cfg.show_progress_percentage { seq![percent@ + seq!['%']] } else { Seq::empty() };
        let d: Seq<Seq<char>> = if cfg.show_chapter_location { seq![location(index as nat, chapters as nat)] } else { Seq::empty() };
        assert(p1 =~= t);
        assert(p2 =~= t + b);
        assert(p3 =~= t + b + c);
        assert(crate::text::views(parts@) =~= t + b + c + d);
    }
    parts
}

fn shorten(parts: &mut Vec<Vec<char>>, max_len: usize, has_title: bool)
    ensures
        crate::text::views(final(parts)@) == shortened(crate::text::views(old(parts)@), max_len as nat, has_title),
{
    let text = join_parts(parts);
    if width_of(&text) > max_len && has_title && parts.len() > 0 {
        let overflow = width_of(&text) - max_len;
        let room = width_of(&parts[0]).saturating_sub(overflow);
        let first = truncate_chars(&parts[0], room);
        if first.len() == 0 {
            parts.remove(0);
            assert(crate::text::views(parts@) =~= crate::text::views(old(parts)@).drop_first());
        } else {
            parts.set(0, first);
            assert(crate::text::views(parts@) =~= crate::text::views(old(parts)@).update(0, first@));
        }
    }
}

/// No part holds an ESC.
pub open spec fn parts_plain(parts: Seq<Seq<char>>) -> bool {
    forall|i: int| 0 <= i < parts.len() ==> !(#[trigger] parts[i]).contains('\x1b')
}

proof fn lemma_joined_plain(parts: Seq<Seq<char>>)
    requires
        parts_plain(parts),
    ensures
        !joined(parts).contains('\x1b'),
    decreases parts.len(),
{
    if parts.len() > 1 {
        let rest = parts.drop_last();
        assert forall|i: int| 0 <= i < rest.len() implies !(#[trigger] rest[i]).contains('\x1b') by {
            assert(rest[i] == parts[i]);
        }
        lemma_joined_plain(rest);
        let a = joined(rest);
        let b = parts.last();
        assert(!b.contains('\x1b')) by {
            assert(b == parts[parts.len() - 1]);
        }
        let j = a + seq![' '] + b;
        assert forall|i: int| 0 <= i < j.len() implies j[i] != '\x1b' by {
            if i < a.len() {
                assert(j[i] == a[i]);
            } else if i > a.len() {
                assert(j[i] == b[i - a.len() - 1]);
            }
        }
    } else if parts.len() == 1 {
        assert(parts[0] == joined(parts));
    }
}

proof fn lemma_framed_plain(parts: Seq<Seq<char>>)
    requires
        parts_plain(parts),
    ensures
        !framed(parts).contains('\x1b'),
{
    lemma_joined_plain(parts);
    reveal_strlit("--- ");
    reveal_strlit(" ---");
    let a = "--- "@;
    let j = joined(parts);
    let f = framed(parts);
    assert forall|i: int| 0 <= i < f.len() implies f[i] != '\x1b' by {
        if i < a.len() {
            assert(f[i] == a[i]);
        } else if i < a.len() + j.len() {
            assert(f[i] == j[i - a.len()]);
        } else {
            assert(f[i] == " ---"@[i - a.len() - j.len()]);
        }
    }
}

proof fn lemma_repeated_plain(c: char, n: nat)
    requires
        c != '\x1b',
    ensures
        !repeated(c, n).contains('\x1b'),
{
    assert forall|i: int| 0 <= i < repeated(c, n).len() implies repeated(c, n)[i] != '\x1b' by {}
}

proof fn lemma_digits_plain(n: nat)
    ensures
        !decimal(n).contains('\x1b'),
{
    lemma_decimal_digits(n);
    assert forall|i: int| 0 <= i < decimal(n).len() implies decimal(n)[i] != '\x1b' by {
        assert(is_digit(decimal(n)[i]));
    }
}

/// The footer's own parts hold no ESC when the title and the percentage
/// hold none; shortening keeps it so.
proof fn lemma_footer_parts_plain(cfg: Config, title: Seq<char>, filled: nat, percent: Seq<char>, index: nat, chapters: nat, max_len: nat)
    requires
        !title.contains('\x1b'),
        !percent.contains('\x1b'),
    ensures
        parts_plain(shortened(footer_parts(cfg, title, filled, percent, index, chapters), max_len, cfg.show_chapter_title)),
{
    let full = if filled < cfg.progress_bar_length as nat { filled } else { cfg.progress_bar_length as nat };
    let b = bar(filled, cfg.progress_bar_length as nat);
    lemma_repeated_plain('█', full);
    lemma_repeated_plain('░', (cfg.progress_bar_length - full) as nat);
    assert forall|i: int| 0 <= i < b.len() implies b[i] != '\x1b' by {
        let r1 = repeated('█', full);
        let r2 = repeated('░', (cfg.progress_bar_length - full) as nat);
        if 1 <= i < 1 + r1.len() {
            assert(b[i] == r1[i - 1]);
        } else if 1 + r1.len() <= i < 1 + r1.len() + r2.len() {
            assert(b[i] == r2[i - 1 - r1.len()]);
        }
    }
    let pc = percent + seq!['%'];
    assert forall|i: int| 0 <= i < pc.len() implies pc[i] != '\x1b' by {
        if i < percent.len() {
            assert(pc[i] == percent[i]);
        }
    }
    let l = location(index, chapters);
    lemma_digits_plain(index + 1);
    lemma_digits_plain(chapters);
    assert forall|i: int| 0 <= i < l.len() implies l[i] != '\x1b' by {
        let d1 = decimal(index + 1);
        let d2 = decimal(chapters);
        if 1 <= i < 1 + d1.len() {
            assert(l[i] == d1[i - 1]);
        } else if 2 + d1.len() <= i < 2 + d1.len() + d2.len() {
            assert(l[i] == d2[i - 2 - d1.len()]);
        }
    }
    let parts = footer_parts(cfg, title, filled, percent, index, chapters);
    assert(parts_plain(parts)) by {
        assert forall|i: int| 0 <= i < parts.len() implies !(#[trigger] parts[i]).contains('\x1b') by {
            assert(parts[i] == title || parts[i] == b || parts[i] == pc || parts[i] == l);
        }
    }
    let sh = shortened(parts, max_len, cfg.show_chapter_title);
    if display_width(framed(parts)) > max_len && cfg.show_chapter_title && parts.len() > 0 {
        let overflow = display_width(framed(parts)) - max_len;
        let room = if display_width(parts[0]) > overflow { display_width(parts[0]) - overflow } else { 0 };
        lemma_truncated_keeps_out(parts[0], room as nat, '\x1b');
        assert forall|i: int| 0 <= i < sh.len() implies !(#[trigger] sh[i]).contains('\x1b') by {
            if truncated(parts[0], room as nat).len() == 0 {
                assert(sh[i] == parts[i + 1]);
            } else if i > 0 {
                assert(sh[i] == parts[i]);
            }
        }
    }
}

fn padding_for(cfg: &Config, term_cols: u16, len: usize) -> (r: usize)
    ensures
        r == footer_padding(*cfg, term_cols, len as int),
{
    let room = (term_cols as usize).saturating_sub(cfg.margin_left.saturating_add(cfg.margin_right));
    let lw = if cfg.max_width < room { cfg.max_width } else { room };
    match cfg.footer_align {
        Alignment::Left => cfg.margin_left,
        Alignment::Center => if lw > len { cfg.margin_left + (lw - len) / 2 } else { cfg.margin_left },
        Alignment::Right => if lw > len { cfg.margin_left + (lw - len) } else { cfg.margin_left },
    }
}

/// The footer, when it shows and has something to show: the spaces before
/// it and its text. `title` is the chapter's title, `filled` the full cells
/// of the progress bar and `percent` the percentage read, both as the
/// caller rounded them.
pub fn footer(cfg: &Config, term_cols: u16, title: &str, filled: usize, percent: &str, index: usize, chapters: usize) -> (r: Option<(usize, String)>)
    requires
        index < usize::MAX,
    ensures
        !cfg.show_footer ==> r.is_none(),
        cfg.show_footer ==> ({
            let parts = footer_parts(*cfg, title@, filled as nat, percent@, index as nat, chapters as nat);
            let text = footer_text(parts, *cfg, term_cols);
            if parts.len() == 0 {
                r.is_none()
            } else {
                r matches Some((padding, t)) && t@ == text
                    && padding == footer_padding(*cfg, term_cols, display_width(text) as int)
            }
        }),
        cfg.show_footer && term_cols > cfg.margin_left && !title@.contains('\x1b') && !percent@.contains('\x1b')
            ==> (r matches Some((padding, t)) ==> ({
            &&& padding >= cfg.margin_left
            &&& display_width(t@) <= term_cols - cfg.margin_left
            &&& padding + display_width(t@) <= term_cols
        })),
{
    if !cfg.show_footer {
        return None;
    }
    let mut parts = footer_pieces(cfg, title, filled, percent, index, chapters);
    if parts.len() == 0 {
        return None;
    }
    let max_len = (term_cols as usize).saturating_sub(cfg.margin_left);
    shorten(&mut parts, max_len, cfg.show_chapter_title);
    let text = join_parts(&parts);
    let line = truncate_chars(&text, max_len);
    let len = width_of(&line);
    proof {
        if !title@.contains('\x1b') && !percent@.contains('\x1b') {
            lemma_footer_parts_plain(*cfg, title@, filled as nat, percent@, index as nat, chapters as nat, max_len as nat);
            lemma_framed_plain(crate::text::views(parts@));
        }
    }
    Some((padding_for(cfg, term_cols, len), string_of(&line)))
}

// ---------------------------------------------------------------- page

/// How many lines of the chapter the page shows from `offset`.
pub open spec fn shown_lines(offset: int, page: int, lines: int) -> int {
    if offset >= lines {
        0
    } else if page < lines - offset {
        page
    } else {
        lines - offset
    }
}

/// One line of the page: its text and a carriage return, or nothing for a
/// row of a picture the terminal draws.
pub open spec fn page_line(line: Seq<char>) -> Seq<char> {
    if line.len() > 0 && line[0] == MARKER {
        Seq::empty()
    } else {
        line + seq!['\r']
    }
}

pub open spec fn page_row(lines: Seq<Seq<char>>, offset: int, i: int) -> PieceView {
    piece(Some((0u16, i as u16)), Ink::Fg, Ink::Bg, false, page_line(lines[offset + i]))
}

pub open spec fn page_rows_view(lines: Seq<Seq<char>>, offset: int, n: nat) -> Seq<PieceView> {
    Seq::new(n, |i: int| page_row(lines, offset, i))
}

/// The window's last row (the largest row for a window without rows, as
/// the row arithmetic wraps).
pub open spec fn last_row(term_rows: u16) -> u16 {
    if term_rows > 0 { (term_rows - 1) as u16 } else { u16::MAX }
}

/// The footer's piece on the window's last row.
pub open spec fn footer_piece(cfg: Config, term_rows: u16, padding: nat, text: Seq<char>) -> PieceView {
    piece(
        Some((0u16, last_row(term_rows))),
        if cfg.dim_footer { Ink::Dim } else { Ink::Fg },
        Ink::Bg,
        false,
        spaces(padding) + text + seq!['\r'],
    )
}

fn line_piece(line: &String, row: usize) -> (p: Piece)
    ensures
        p@ == piece(Some((0u16, row as u16)), Ink::Fg, Ink::Bg, false, page_line(line@)),
{
    let v = chars_of(line.as_str());
    let mut text: Vec<char> = Vec::new();
    if !(v.len() > 0 && v[0] == MARKER) {
        push_all(&mut text, &v);
        text.push('\r');
        assert(text@ =~= line@ + seq!['\r']);
    } else {
        assert(text@ =~= Seq::<char>::empty());
    }
    #[verifier::truncate]
    let y = row as u16;
    make_piece(Some((0, y)), Ink::Fg, Ink::Bg, false, text)
}

/// The page: the visible lines of the chapter from `app.offset`, then the
/// footer (see `footer`) on the last row. `title`, `filled` and `percent`
/// are as `footer` takes them.
pub fn draw_reading_view(
    app: &AppState,
    cfg: &Config,
    lines: &Vec<String>,
    title: &str,
    filled: usize,
    percent: &str,
    chapters: usize,
) -> (r: Vec<Piece>)
    requires
        app.chapter_index < usize::MAX,
    ensures
        ({
            let n = shown_lines(app.offset as int, app.lines_per_page as int, lines.len() as int);
            let page = page_rows_view(lines@.map_values(|l: String| l@), app.offset as int, n as nat);
            let parts = footer_parts(*cfg, title@, filled as nat, percent@, app.chapter_index as nat, chapters as nat);
            let text = footer_text(parts, *cfg, app.term_cols);
            pieces_view(r@) == if cfg.show_footer && parts.len() > 0 {
                page.push(footer_piece(*cfg, app.term_rows, footer_padding(*cfg, app.term_cols, display_width(text) as int) as nat, text))
            } else {
                page
            }
        }),
        cfg.show_footer && app.term_cols > cfg.margin_left && !title@.contains('\x1b') && !percent@.contains('\x1b') ==> ({
            let parts = footer_parts(*cfg, title@, filled as nat, percent@, app.chapter_index as nat, chapters as nat);
            let text = footer_text(parts, *cfg, app.term_cols);
            let padding = footer_padding(*cfg, app.term_cols, display_width(text) as int);
            parts.len() > 0 ==> {
                &&& padding >= cfg.margin_left
                &&& display_width(text) <= app.term_cols - cfg.margin_left
                &&& padding + display_width(text) <= app.term_cols
            }
        }),
{
    let n: usize = if app.offset >= lines.len() {
        0
    } else if app.lines_per_page < lines.len() - app.offset {
        app.lines_per_page
    } else {
        lines.len() - app.offset
    };
    let ghost views = lines@.map_values(|l: String| l@);
    let mut out: Vec<Piece> = Vec::new();
    let mut i: usize = 0;
    while i < n
        invariant
            i <= n,
            n == shown_lines(app.offset as int, app.lines_per_page as int, lines.len() as int),
            views == lines@.map_values(|l: String| l@),
            pieces_view(out@) == page_rows_view(views, app.offset as int, i as nat),
        decreases n - i,
    {
        let p = line_piece(&lines[app.offset + i], i);
        let ghost before = pieces_view(out@);
        assert(views[app.offset + i] == lines@[app.offset + i]@);
        assert(p@ == page_row(views, app.offset as int, i as int));
        out.push(p);
        assert(pieces_view(out@) =~= before.push(p@));
        assert(page_rows_view(views, app.offset as int, (i + 1) as nat) =~= page_rows_view(views, app.offset as int, i as nat).push(page_row(views, app.offset as int, i as int)));
        i += 1;
    }
    match footer(cfg, app.term_cols, title, filled, percent, app.chapter_index, chapters) {
        Some((padding, text)) => {
            let mut t: Vec<char> = Vec::new();
            push_repeated(&mut t, ' ', padding);
            push_str(&mut t, text.as_str());
            t.push('\r');
            assert(repeated(' ', padding as nat) =~= spaces(padding as nat));
            assert(t@ =~= spaces(padding as nat) + text@ + seq!['\r']);
            let y = if app.term_rows > 0 { app.term_rows - 1 } else { u16::MAX };
            let p = make_piece(Some((0, y)), if cfg.dim_footer { Ink::Dim } else { Ink::Fg }, Ink::Bg, false, t);
            let ghost before = out@;
            out.push(p);
            assert(pieces_view(out@) =~= pieces_view(before).push(p@));
        },
        None => {},
    }
    out
}

// ---------------------------------------------------------------- menus

/// The column a menu box starts at: centered on the text, moved left to
/// stay inside the window.
pub open spec fn box_left(cfg: Config, dynamic_width: usize, box_width: int, term_cols: u16) -> int {
    let center = cfg.margin_left + dynamic_width / 2;
    let x = (if center > box_width / 2 { center - box_width / 2 } else { 0 }) as u16 as int;
    if x + box_width > term_cols {
        if term_cols > box_width { term_cols - box_width } else { 0 }
    } else {
        x
    }
}

/// The row a menu box starts at: centered in the window.
pub open spec fn box_top(term_rows: u16, box_height: int) -> int {
    (if term_rows > box_height { term_rows - box_height } else { 0 }) / 2
}

fn left_of_box(cfg: &Config, dynamic_width: usize, box_width: usize, term_cols: u16) -> (x: u16)
    requires
        box_width <= 70,
    ensures
        x == box_left(*cfg, dynamic_width, box_width as int, term_cols),
{
    let center: u128 = cfg.margin_left as u128 + (dynamic_width / 2) as u128;
    let half = (box_width / 2) as u128;
    let shifted: u128 = if center > half { center - half } else { 0 };
    #[verifier::truncate]
    let x = shifted as u16;
    if x as usize + box_width > term_cols as usize {
        if term_cols as usize > box_width { (term_cols as usize - box_width) as u16 } else { 0 }
    } else {
        x
    }
}

/// The table of contents' width: the text's less four, within 30..=70.
pub open spec fn toc_width(dynamic_width: usize) -> int {
    let w = if dynamic_width > 4 { dynamic_width - 4 } else { 0 };
    if w < 30 { 30 } else if w > 70 { 70 } else { w }
}

/// The table of contents' height: the window's less four, within 10..=25.
pub open spec fn toc_height(term_rows: u16) -> int {
    let h = if term_rows > 4 { term_rows - 4 } else { 0 };
    if h < 10 { 10 } else if h > 25 { 25 } else { h }
}

/// The first chapter listed: moved just enough to show the cursor.
pub open spec fn scrolled_top(cursor: int, top: int, visible: int) -> int {
    if cursor < top {
        cursor
    } else if cursor >= top + visible {
        cursor - visible + 1
    } else {
        top
    }
}

/// The table of contents always shows its cursor: after scrolling, the
/// cursor's chapter is among the rows shown.
pub proof fn law_toc_shows_the_cursor(cursor: int, top: int, visible: int)
    requires
        visible >= 1,
    ensures
        scrolled_top(cursor, top, visible) <= cursor < scrolled_top(cursor, top, visible) + visible,
{
}

/// A box's top edge with its bold title.
pub open spec fn box_title(x: int, y: int, inner: int, title: Seq<char>) -> Seq<PieceView> {
    seq![
        piece(Some((x as u16, y as u16)), Ink::Accent, Ink::Bg, false, seq!['╭']),
        piece(None, Ink::Accent, Ink::Bg, true, title),
        piece(None, Ink::Accent, Ink::Bg, false, repeated('─', (if inner > display_width(title) { inner - display_width(title) } else { 0 }) as nat) + seq!['╮']),
    ]
}

/// A box's bottom edge.
pub open spec fn box_bottom(x: int, y: int, inner: int) -> PieceView {
    piece(Some((x as u16, y as u16)), Ink::Accent, Ink::Bg, false, seq!['╰'] + repeated('─', inner as nat) + seq!['╯'])
}

/// One row of the table of contents: a chapter's title, marked when the
/// cursor is on it, or an empty row below the last chapter.
pub open spec fn toc_row(titles: Seq<Seq<char>>, top: int, cursor: int, bw: int, x: int, y: int, i: int) -> PieceView {
    let idx = top + i;
    let at = Some((x as u16, (y + 1 + i) as u16));
    if idx < titles.len() {
        let padded = truncated(titles[idx], (bw - 6) as nat) + spaces(room(truncated(titles[idx], (bw - 6) as nat), (bw - 6) as nat));
        if idx == cursor {
            piece(at, Ink::Bg, Ink::Accent, false, "│ > "@ + padded + " │"@)
        } else {
            piece(at, Ink::Accent, Ink::Bg, false, "│   "@ + padded + " │"@)
        }
    } else {
        piece(at, Ink::Accent, Ink::Bg, false, seq!['│'] + spaces((bw - 2) as nat) + seq!['│'])
    }
}

pub open spec fn toc_rows(titles: Seq<Seq<char>>, top: int, cursor: int, bw: int, x: int, y: int, n: nat) -> Seq<PieceView> {
    Seq::new(n, |i: int| toc_row(titles, top, cursor, bw, x, y, i))
}

/// The whole table of contents for `app`, whose `toc_top` already shows the cursor.
pub open spec fn toc_view(app: AppState, cfg: Config, titles: Seq<Seq<char>>, ui: Language) -> Seq<PieceView> {
    box_title(
        box_left(cfg, app.dynamic_width, toc_width(app.dynamic_width), app.term_cols),
        box_top(app.term_rows, toc_height(app.term_rows)),
        toc_width(app.dynamic_width) - 2,
        truncated(seq![' '] + translation(ui, Text::TableOfContents) + seq![' '], (toc_width(app.dynamic_width) - 2) as nat),
    ) + toc_rows(
        titles,
        app.toc_top as int,
        app.toc_cursor as int,
        toc_width(app.dynamic_width),
        box_left(cfg, app.dynamic_width, toc_width(app.dynamic_width), app.term_cols),
        box_top(app.term_rows, toc_height(app.term_rows)),
        (toc_height(app.term_rows) - 2) as nat,
    ) + seq![box_bottom(
        box_left(cfg, app.dynamic_width, toc_width(app.dynamic_width), app.term_cols),
        box_top(app.term_rows, toc_height(app.term_rows)) + toc_height(app.term_rows) - 1,
        toc_width(app.dynamic_width) - 2,
    )]
}

fn title_pieces(out: &mut Vec<Piece>, x: u16, y: u16, inner: usize, text: Text, ui: Language)
    requires
        inner <= 68,
    ensures
        pieces_view(final(out)@) == pieces_view(old(out)@) + box_title(
            x as int,
            y as int,
            inner as int,
            truncated(seq![' '] + translation(ui, text) + seq![' '], inner as nat),
        ),
{
    let mut t: Vec<char> = Vec::new();
    t.push(' ');
    push_str(&mut t, tr(ui, text));
    t.push(' ');
    let title = truncate_chars(&t, inner);
    let ghost title_view = truncated(seq![' '] + translation(ui, text) + seq![' '], inner as nat);
    assert(t@ =~= seq![' '] + translation(ui, text) + seq![' ']);
    let w = width_of(&title);
    let mut corner: Vec<char> = Vec::new();
    corner.push('╭');
    let mut dashes: Vec<char> = Vec::new();
    push_repeated(&mut dashes, '─', inner.saturating_sub(w));
    dashes.push('╮');
    assert(corner@ =~= seq!['╭']);
    assert(dashes@ =~= repeated('─', (if inner > display_width(title_view) { inner - display_width(title_view) } else { 0 }) as nat) + seq!['╮']);
    let ghost before = pieces_view(out@);
    let p1 = make_piece(Some((x, y)), Ink::Accent, Ink::Bg, false, corner);
    let p2 = make_piece(None, Ink::Accent, Ink::Bg, true, title);
    let p3 = make_piece(None, Ink::Accent, Ink::Bg, false, dashes);
    out.push(p1);
    out.push(p2);
    out.push(p3);
    assert(pieces_view(out@) =~= before + box_title(x as int, y as int, inner as int, title_view));
}

fn bottom_piece(x: u16, y: u16, inner: usize) -> (p: Piece)
    ensures
        p@ == box_bottom(x as int, y as int, inner as int),
{
    let mut t: Vec<char> = Vec::new();
    t.push('╰');
    push_repeated(&mut t, '─', inner);
    t.push('╯');
    assert(t@ =~= seq!['╰'] + repeated('─', inner as nat) + seq!['╯']);
    make_piece(Some((x, y)), Ink::Accent, Ink::Bg, false, t)
}

fn toc_row_piece(titles: &Vec<String>, top: usize, cursor: usize, bw: usize, x: u16, y: u16, i: usize) -> (p: Piece)
    requires
        30 <= bw <= 70,
        i < 25,
        y as int + 1 + i <= u16::MAX,
    ensures
        p@ == toc_row(titles@.map_values(|t: String| t@), top as int, cursor as int, bw as int, x as int, y as int, i as int),
{
    let ghost views = titles@.map_values(|t: String| t@);
    let at = Some((x, y + 1 + i as u16));
    if i < titles.len() && top < titles.len() - i {
        let idx = top + i;
        let name = truncate(titles[idx].as_str(), bw - 6);
        let padded = pad_right(name.as_str(), bw - 6);
        let mut t: Vec<char> = Vec::new();
        if idx == cursor {
            push_str(&mut t, "│ > ");
            push_str(&mut t, padded.as_str());
            push_str(&mut t, " │");
            make_piece(at, Ink::Bg, Ink::Accent, false, t)
        } else {
            push_str(&mut t, "│   ");
            push_str(&mut t, padded.as_str());
            push_str(&mut t, " │");
            make_piece(at, Ink::Accent, Ink::Bg, false, t)
        }
    } else {
        let mut t: Vec<char> = Vec::new();
        t.push('│');
        push_repeated(&mut t, ' ', bw - 2);
        t.push('│');
        assert(repeated(' ', (bw - 2) as nat) =~= spaces((bw - 2) as nat));
        assert(t@ =~= seq!['│'] + spaces((bw - 2) as nat) + seq!['│']);
        make_piece(at, Ink::Accent, Ink::Bg, false, t)
    }
}

/// The table of contents over the page: a box of chapter titles around the
/// cursor. `toc_top` first moves just enough to keep the cursor in view.
pub fn draw_toc_menu(app: &mut AppState, cfg: &Config, titles: &Vec<String>, ui: Language) -> (r: Vec<Piece>)
    ensures
        *final(app) == (AppState {
            toc_top: scrolled_top(old(app).toc_cursor as int, old(app).toc_top as int, toc_height(old(app).term_rows) - 2) as usize,
            ..*old(app)
        }),
        pieces_view(r@) == toc_view(*final(app), *cfg, titles@.map_values(|t: String| t@), ui),
{
    let bw: usize = {
        let w = app.dynamic_width.saturating_sub(4);
        if w < 30 { 30 } else if w > 70 { 70 } else { w }
    };
    let bh: u16 = {
        let h = app.term_rows.saturating_sub(4);
        if h < 10 { 10 } else if h > 25 { 25 } else { h }
    };
    let x = left_of_box(cfg, app.dynamic_width, bw, app.term_cols);
    let y = app.term_rows.saturating_sub(bh) / 2;
    let visible = (bh - 2) as usize;
    if app.toc_cursor < app.toc_top {
        app.toc_top = app.toc_cursor;
    } else if app.toc_cursor - app.toc_top >= visible {
        app.toc_top = app.toc_cursor - visible + 1;
    }
    let mut out: Vec<Piece> = Vec::new();
    title_pieces(&mut out, x, y, bw - 2, Text::TableOfContents, ui);
    let ghost head = pieces_view(out@);
    let ghost views = titles@.map_values(|t: String| t@);
    let mut i: usize = 0;
    while i < visible
        invariant
            i <= visible,
            visible == bh - 2,
            10 <= bh <= 25,
            30 <= bw <= 70,
            y as int + bh <= u16::MAX,
            views == titles@.map_values(|t: String| t@),
            pieces_view(out@) == head + toc_rows(views, app.toc_top as int, app.toc_cursor as int, bw as int, x as int, y as int, i as nat),
        decreases visible - i,
    {
        let p = toc_row_piece(titles, app.toc_top, app.toc_cursor, bw, x, y, i);
        let ghost before = pieces_view(out@);
        out.push(p);
        assert(pieces_view(out@) =~= before.push(p@));
        assert(toc_rows(views, app.toc_top as int, app.toc_cursor as int, bw as int, x as int, y as int, (i + 1) as nat) =~= toc_rows(views, app.toc_top as int, app.toc_cursor as int, bw as int, x as int, y as int, i as nat).push(toc_row(views, app.toc_top as int, app.toc_cursor as int, bw as int, x as int, y as int, i as int)));
        i += 1;
    }
    let b = bottom_piece(x, y + bh - 1, bw - 2);
    let ghost before = pieces_view(out@);
    out.push(b);
    assert(pieces_view(out@) =~= before.push(b@));
    out
}

/// `s` centered in `columns` columns, the odd space on the right.
pub open spec fn centered(s: Seq<char>, columns: nat) -> Seq<char> {
    spaces(room(s, columns) / 2) + s + spaces((room(s, columns) - room(s, columns) / 2) as nat)
}

/// An empty row of the settings box.
pub open spec fn blank_row(x: int, y: int) -> PieceView {
    piece(Some((x as u16, y as u16)), Ink::Accent, Ink::Bg, false, seq!['│'] + spaces(34) + seq!['│'])
}

/// A group's heading in the settings box, dimmed between the box's sides.
pub open spec fn header_row(x: int, y: int, heading: Seq<char>) -> Seq<PieceView> {
    seq![
        piece(Some((x as u16, y as u16)), Ink::Accent, Ink::Bg, false, seq!['│']),
        piece(None, Ink::Dim, Ink::Bg, false, centered("--- "@ + heading + " ---"@, 34)),
        piece(None, Ink::Accent, Ink::Bg, false, seq!['│']),
    ]
}

/// A setting's name, cut and padded to 15 columns.
pub open spec fn label_cell(label: Seq<char>) -> Seq<char> {
    truncated(label, 15) + spaces(room(truncated(label, 15), 15))
}

/// A setting's value, cut to 10 columns and right-aligned in 7.
pub open spec fn value_cell(value: Seq<char>) -> Seq<char> {
    spaces(room(truncated(value, 10), 7)) + truncated(value, 10)
}

/// The screen row of the `i`-th setting: the footer group sits two rows
/// lower, below its heading.
pub open spec fn setting_y(y: int, i: int) -> int {
    y + 3 + i + if i < MAIN_ROWS { 0int } else { 2int }
}

/// The `i`-th setting's row: the row under the cursor is marked and shows
/// arrows around its value.
pub open spec fn setting_row(app: AppState, cfg: Config, ui: Language, x: int, y: int, i: int) -> Seq<PieceView> {
    let row = row_order(i);
    let label = label_cell(translation(ui, row_text(row)));
    let value = value_cell(row_value(row, cfg, ui));
    seq![
        piece(Some((x as u16, setting_y(y, i) as u16)), Ink::Accent, Ink::Bg, false, seq!['│']),
        if app.settings_cursor == i {
            piece(None, Ink::Bg, Ink::Accent, false, centered(label + " < "@ + value + " >"@, 34))
        } else {
            piece(None, Ink::Fg, Ink::Bg, false, centered(label + "   "@ + value + "  "@, 34))
        },
        piece(None, Ink::Accent, Ink::Bg, false, seq!['│']),
    ]
}

pub open spec fn setting_rows(app: AppState, cfg: Config, ui: Language, x: int, y: int, n: nat) -> Seq<PieceView>
    decreases n,
{
    if n == 0 {
        Seq::empty()
    } else {
        setting_rows(app, cfg, ui, x, y, (n - 1) as nat) + setting_row(app, cfg, ui, x, y, n - 1)
    }
}

/// The whole settings box.
pub open spec fn settings_view(app: AppState, cfg: Config, ui: Language) -> Seq<PieceView> {
    let x = box_left(cfg, app.dynamic_width, 36, app.term_cols);
    let y = box_top(app.term_rows, 24);
    box_title(x, y, 34, truncated(seq![' '] + translation(ui, Text::Settings) + seq![' '], 34))
        + seq![blank_row(x, y + 1)]
        + header_row(x, y + 2, translation(ui, Text::MainUi))
        + seq![blank_row(x, y + 3 + MAIN_ROWS)]
        + header_row(x, y + 4 + MAIN_ROWS, translation(ui, Text::Footer))
        + setting_rows(app, cfg, ui, x, y, ROW_COUNT as nat)
        + seq![blank_row(x, y + 22), box_bottom(x, y + 23, 34)]
}

fn blank_piece(x: u16, y: u16) -> (p: Piece)
    ensures
        p@ == blank_row(x as int, y as int),
{
    let mut t: Vec<char> = Vec::new();
    t.push('│');
    push_repeated(&mut t, ' ', 34);
    t.push('│');
    assert(repeated(' ', 34) =~= spaces(34));
    assert(t@ =~= seq!['│'] + spaces(34) + seq!['│']);
    make_piece(Some((x, y)), Ink::Accent, Ink::Bg, false, t)
}

fn side(at: Option<(u16, u16)>) -> (p: Piece)
    ensures
        p@ == piece(at, Ink::Accent, Ink::Bg, false, seq!['│']),
{
    let mut t: Vec<char> = Vec::new();
    t.push('│');
    assert(t@ =~= seq!['│']);
    make_piece(at, Ink::Accent, Ink::Bg, false, t)
}

fn centered_piece(fg: Ink, bg: Ink, s: Vec<char>) -> (p: Piece)
    ensures
        p@ == piece(None, fg, bg, false, centered(s@, 34)),
{
    let text = string_of(&s);
    let c = center(text.as_str(), 34);
    Piece { at: None, fg, bg, bold: false, text: c }
}

fn header_pieces(out: &mut Vec<Piece>, x: u16, y: u16, heading: Text, ui: Language)
    ensures
        pieces_view(final(out)@) == pieces_view(old(out)@) + header_row(x as int, y as int, translation(ui, heading)),
{
    let mut t: Vec<char> = Vec::new();
    push_str(&mut t, "--- ");
    push_str(&mut t, tr(ui, heading));
    push_str(&mut t, " ---");
    let ghost before = pieces_view(out@);
    let a = side(Some((x, y)));
    let b = centered_piece(Ink::Dim, Ink::Bg, t);
    let c = side(None);
    out.push(a);
    out.push(b);
    out.push(c);
    assert(pieces_view(out@) =~= before + header_row(x as int, y as int, translation(ui, heading)));
}

fn setting_pieces(out: &mut Vec<Piece>, app: &AppState, cfg: &Config, ui: Language, x: u16, y: u16, i: usize)
    requires
        i < ROW_COUNT,
        y as int + 24 <= u16::MAX,
    ensures
        pieces_view(final(out)@) == pieces_view(old(out)@) + setting_row(*app, *cfg, ui, x as int, y as int, i as int),
{
    let row = row_at(i);
    let name = truncate(row.label(ui), 15);
    let label = pad_right(name.as_str(), 15);
    let v = row.value(cfg, ui);
    let shown = truncate(v.as_str(), 10);
    let value = pad_left(shown.as_str(), 7);
    let row_y = y + 3 + i as u16 + if i < MAIN_ROWS { 0 } else { 2 };
    let mut t: Vec<char> = Vec::new();
    push_str(&mut t, label.as_str());
    let middle = if app.settings_cursor == i {
        push_str(&mut t, " < ");
        push_str(&mut t, value.as_str());
        push_str(&mut t, " >");
        centered_piece(Ink::Bg, Ink::Accent, t)
    } else {
        push_str(&mut t, "   ");
        push_str(&mut t, value.as_str());
        push_str(&mut t, "  ");
        centered_piece(Ink::Fg, Ink::Bg, t)
    };
    let ghost before = pieces_view(out@);
    let a = side(Some((x, row_y)));
    let c = side(None);
    out.push(a);
    out.push(middle);
    out.push(c);
    assert(pieces_view(out@) =~= before + setting_row(*app, *cfg, ui, x as int, y as int, i as int));
}

/// The settings box over the page: the main group and the footer group,
/// each setting's name and value, the one under the cursor marked.
pub fn draw_settings_menu(app: &AppState, cfg: &Config, ui: Language) -> (r: Vec<Piece>)
    ensures
        pieces_view(r@) == settings_view(*app, *cfg, ui),
{
    let x = left_of_box(cfg, app.dynamic_width, 36, app.term_cols);
    let y = app.term_rows.saturating_sub(24) / 2;
    let mut out: Vec<Piece> = Vec::new();
    assert(pieces_view(out@) =~= Seq::<PieceView>::empty());
    title_pieces(&mut out, x, y, 34, Text::Settings, ui);
    let ghost s1 = pieces_view(out@);
    let b1 = blank_piece(x, y + 1);
    out.push(b1);
    assert(pieces_view(out@) =~= s1.push(b1@));
    header_pieces(&mut out, x, y + 2, Text::MainUi, ui);
    let ghost s2 = pieces_view(out@);
    let b2 = blank_piece(x, y + 3 + MAIN_ROWS as u16);
    out.push(b2);
    assert(pieces_view(out@) =~= s2.push(b2@));
    header_pieces(&mut out, x, y + 4 + MAIN_ROWS as u16, Text::Footer, ui);
    let ghost head = pieces_view(out@);
    proof {
        let xi = x as int;
        let yi = y as int;
        assert(head =~= box_title(xi, yi, 34, truncated(seq![' '] + translation(ui, Text::Settings) + seq![' '], 34))
            + seq![blank_row(xi, yi + 1)]
            + header_row(xi, yi + 2, translation(ui, Text::MainUi))
            + seq![blank_row(xi, yi + 3 + MAIN_ROWS)]
            + header_row(xi, yi + 4 + MAIN_ROWS, translation(ui, Text::Footer)));
    }
    let mut i: usize = 0;
    while i < ROW_COUNT
        invariant
            i <= ROW_COUNT,
            y as int + 24 <= u16::MAX,
            pieces_view(out@) == head + setting_rows(*app, *cfg, ui, x as int, y as int, i as nat),
        decreases ROW_COUNT - i,
    {
        setting_pieces(&mut out, app, cfg, ui, x, y, i);
        i += 1;
        assert(pieces_view(out@) =~= head + setting_rows(*app, *cfg, ui, x as int, y as int, i as nat));
    }
    let b3 = blank_piece(x, y + 22);
    let b4 = bottom_piece(x, y + 23, 34);
    let ghost before = pieces_view(out@);
    out.push(b3);
    out.push(b4);
    assert(pieces_view(out@) =~= before + seq![b3@, b4@]);
    out
}

} // verus!
