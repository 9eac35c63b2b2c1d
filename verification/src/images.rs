//! Pictures in the book: drawn by the terminal through the kitty graphics
//! protocol where it has one (Ghostty, kitty), drawn with colored half-block
//! characters elsewhere, or shown as an "[Image]" label.

use vstd::prelude::*;
use crate::i18n::{tr, translation, Language, Text};
use crate::text::{decimal, find_in, find_str, push_decimal, push_str, chars_of, eq_str, parse_unsigned, parse_unsigned_chars, slice, starts_with, starts_with_str, string_of, views};

verus! {

/// Starts a line that holds one row of a picture the terminal draws.
pub const MARKER: char = '\x1d';
pub const SEPARATOR: char = '\x1f';

/// The Images setting.
#[derive(PartialEq, Eq, Structural, Clone, Copy, Debug)]
pub enum Setting {
    Auto,
    Kitty,
    Blocks,
    Off,
}

/// The setting after `s` in the menu: Auto, Kitty, Blocks, Off, and round again.
pub open spec fn setting_after(s: Setting) -> Setting {
    match s {
        Setting::Auto => Setting::Kitty,
        Setting::Kitty => Setting::Blocks,
        Setting::Blocks => Setting::Off,
        Setting::Off => Setting::Auto,
    }
}

/// The setting before `s` in the menu.
pub open spec fn setting_before(s: Setting) -> Setting {
    setting_after(setting_after(setting_after(s)))
}

pub open spec fn setting_name(s: Setting, ui: Language) -> Seq<char> {
    match s {
        Setting::Auto => translation(ui, Text::Auto),
        Setting::Kitty => "Kitty"@,
        Setting::Blocks => translation(ui, Text::Blocks),
        Setting::Off => translation(ui, Text::Off),
    }
}

impl Setting {
    pub fn next(self) -> (r: Self)
        ensures
            r == setting_after(self),
    {
        match self {
            Setting::Auto => Setting::Kitty,
            Setting::Kitty => Setting::Blocks,
            Setting::Blocks => Setting::Off,
            Setting::Off => Setting::Auto,
        }
    }

    pub fn prev(self) -> (r: Self)
        ensures
            r == setting_before(self),
    {
        self.next().next().next()
    }

    /// The setting's name in the interface language `ui`.
    pub fn name(self, ui: Language) -> (r: &'static str)
        ensures
            r@ == setting_name(self, ui),
    {
        match self {
            Setting::Auto => tr(ui, Text::Auto),
            Setting::Kitty => "Kitty",
            Setting::Blocks => tr(ui, Text::Blocks),
            Setting::Off => tr(ui, Text::Off),
        }
    }
}

/// Four steps forward come back round, and a step back undoes a step forward.
pub proof fn law_setting_cycle(s: Setting)
    ensures
        setting_after(setting_after(setting_after(setting_after(s)))) == s,
        setting_before(setting_after(s)) == s,
        setting_after(setting_before(s)) == s,
{
}

/// How pictures are shown on this terminal.
#[derive(PartialEq, Eq, Structural, Clone, Copy, Debug)]
pub enum Mode {
    Labels,
    Kitty,
    Blocks,
}

/// The environment variables that tell what the terminal can draw; an unset
/// variable reads as empty.
pub struct TerminalEnv {
    pub term: String,
    pub tmux: String,
    pub term_program: String,
    pub kitty_window_id: String,
    pub colorterm: String,
}

/// Terminals known to implement the kitty graphics protocol, going by the
/// variables they set. Inside tmux or screen the protocol needs passthrough,
/// so it is left off there.
pub open spec fn kitty_env(term: Seq<char>, tmux: Seq<char>, term_program: Seq<char>, window: Seq<char>) -> bool {
    if tmux.len() > 0 || starts_with(term, "screen"@) || starts_with(term, "tmux"@) {
        false
    } else {
        term == "xterm-kitty"@ || term == "xterm-ghostty"@ || term_program == "ghostty"@
            || window.len() > 0
    }
}

pub open spec fn truecolor_env(colorterm: Seq<char>) -> bool {
    colorterm == "truecolor"@ || colorterm == "24bit"@
}

pub fn kitty_terminal(env: &TerminalEnv) -> (r: bool)
    ensures
        r == kitty_env(env.term@, env.tmux@, env.term_program@, env.kitty_window_id@),
{
    let term = chars_of(env.term.as_str());
    let tmux = chars_of(env.tmux.as_str());
    let program = chars_of(env.term_program.as_str());
    let window = chars_of(env.kitty_window_id.as_str());
    if tmux.len() > 0 || starts_with_str(&term, "screen") || starts_with_str(&term, "tmux") {
        return false;
    }
    eq_str(&term, "xterm-kitty") || eq_str(&term, "xterm-ghostty") || eq_str(&program, "ghostty")
        || window.len() > 0
}

pub fn truecolor_terminal(env: &TerminalEnv) -> (r: bool)
    ensures
        r == truecolor_env(env.colorterm@),
{
    let c = chars_of(env.colorterm.as_str());
    eq_str(&c, "truecolor") || eq_str(&c, "24bit")
}

pub open spec fn mode_for(setting: Setting, kitty: bool, truecolor: bool) -> Mode {
    match setting {
        Setting::Kitty => Mode::Kitty,
        Setting::Blocks => Mode::Blocks,
        Setting::Off => Mode::Labels,
        Setting::Auto => if kitty {
            Mode::Kitty
        } else if truecolor {
            Mode::Blocks
        } else {
            Mode::Labels
        },
    }
}

impl Mode {
    /// The mode a setting asks for; Auto goes by what the terminal can draw.
    pub fn from_setting(setting: Setting, env: &TerminalEnv) -> (r: Self)
        ensures
            r == mode_for(
                setting,
                kitty_env(env.term@, env.tmux@, env.term_program@, env.kitty_window_id@),
                truecolor_env(env.colorterm@),
            ),
    {
        match setting {
            Setting::Kitty => Mode::Kitty,
            Setting::Blocks => Mode::Blocks,
            Setting::Off => Mode::Labels,
            Setting::Auto => if kitty_terminal(env) {
                Mode::Kitty
            } else if truecolor_terminal(env) {
                Mode::Blocks
            } else {
                Mode::Labels
            },
        }
    }
}

/// What laying out a picture needs to know about the terminal.
#[derive(Clone, Copy)]
pub struct Layout {
    pub mode: Mode,
    /// Cell size in pixels, which sets a picture's rows for its columns
    pub cell: (u32, u32),
    /// Tallest picture in rows, so each fits on one screen
    pub max_rows: usize,
    /// Color that transparent pixels blend into (half-blocks only)
    pub background: (u8, u8, u8),
}

impl Layout {
    pub fn labels() -> (r: Self)
        ensures
            r.mode == Mode::Labels,
            r.cell == (10u32, 20u32),
            r.max_rows == 24,
            r.background == (0u8, 0u8, 0u8),
    {
        Layout { mode: Mode::Labels, cell: (10, 20), max_rows: 24, background: (0, 0, 0) }
    }
}

/// The cell size in pixels from the window size the terminal reports (its
/// width and height in pixels, then its columns and rows); a terminal that
/// reports none gets a typical 1:2 cell.
pub open spec fn cell_of(window: Option<(u16, u16, u16, u16)>) -> (u32, u32) {
    match window {
        Some((w, h, c, r)) if w > 0 && h > 0 && c > 0 && r > 0 => (
            (if w / c < 1 { 1 } else { w / c }) as u32,
            (if h / r < 1 { 1 } else { h / r }) as u32,
        ),
        _ => (10, 20),
    }
}

/// The cell size in pixels (see `cell_of`).
pub fn cell_size(window: Option<(u16, u16, u16, u16)>) -> (r: (u32, u32))
    ensures
        r == cell_of(window),
{
    match window {
        Some((w, h, c, r)) => if w > 0 && h > 0 && c > 0 && r > 0 {
            let cw = if w / c < 1 { 1 } else { w / c };
            let ch = if h / r < 1 { 1 } else { h / r };
            (cw as u32, ch as u32)
        } else {
            (10, 20)
        },
        None => (10, 20),
    }
}

/// `a / b` rounded up.
pub open spec fn ceil_div(a: int, b: int) -> int {
    (a + (b - 1)) / b
}

pub open spec fn clamp(v: int, lo: int, hi: int) -> int {
    if v < lo {
        lo
    } else if v > hi {
        hi
    } else {
        v
    }
}

pub open spec fn max1(v: int) -> int {
    if v < 1 {
        1
    } else {
        v
    }
}

/// Columns and rows for a `width` × `height` pixel picture: its natural size
/// on `cw` × `ch` pixel cells, shrunk by one scale to the text width and the
/// screen height where it is bigger, each rounded up and kept within 1 and
/// those limits. The scale is the smaller of `wrap * cw / width`,
/// `max_rows * ch / height` and 1, computed exactly.
pub open spec fn fitted(width: int, height: int, wrap: int, max_rows: int, cw: int, ch: int) -> (int, int) {
    if cw == 0 || ch == 0 {
        (1, 1)
    } else {
        let w = max1(width);
        let h = max1(height);
        // scale == wrap * cw / w: the text width is what limits
        let by_width = wrap * cw <= w && wrap * cw * h <= max_rows * ch * w;
        // scale == max_rows * ch / h: the screen height is what limits
        let by_height = !by_width && max_rows * ch <= h;
        let cols = if by_width {
            wrap
        } else if by_height {
            ceil_div(w * max_rows * ch, h * cw)
        } else {
            ceil_div(w, cw)
        };
        let rows = if by_width {
            ceil_div(h * wrap * cw, w * ch)
        } else if by_height {
            max_rows
        } else {
            ceil_div(h, ch)
        };
        (clamp(cols, 1, max1(wrap)), clamp(rows, 1, max1(max_rows)))
    }
}

/// Pictures fit the text width and the screen: a picture takes at least one
/// column and row, and at most the text's width and the page's height.
pub proof fn law_pictures_fit(width: int, height: int, wrap: int, max_rows: int, cw: int, ch: int)
    ensures
        1 <= fitted(width, height, wrap, max_rows, cw, ch).0 <= max1(wrap),
        1 <= fitted(width, height, wrap, max_rows, cw, ch).1 <= max1(max_rows),
{
}

fn ceil_div_u128(a: u128, b: u128) -> (r: u128)
    requires
        b > 0,
        a + b - 1 <= u128::MAX,
    ensures
        r == ceil_div(a as int, b as int),
{
    (a + (b - 1)) / b
}

fn clamp_usize(v: u128, lo: usize, hi: usize) -> (r: usize)
    requires
        lo <= hi,
    ensures
        r == clamp(v as int, lo as int, hi as int),
{
    if v < lo as u128 {
        lo
    } else if v > hi as u128 {
        hi
    } else {
        v as usize
    }
}

/// Columns and rows for a picture: its natural size, shrunk to the text width
/// and the screen height, keeping its shape.
pub fn fit(width: u32, height: u32, wrap_width: usize, layout: &Layout) -> (r: (usize, usize))
    ensures
        (r.0 as int, r.1 as int) == fitted(
            width as int,
            height as int,
            wrap_width as int,
            layout.max_rows as int,
            layout.cell.0 as int,
            layout.cell.1 as int,
        ),
{
    let (cw32, ch32) = layout.cell;
    if cw32 == 0 || ch32 == 0 {
        return (1, 1);
    }
    let cw = cw32 as u128;
    let ch = ch32 as u128;
    let w: u128 = if width < 1 { 1 } else { width as u128 };
    let h: u128 = if height < 1 { 1 } else { height as u128 };
    let wrap = wrap_width as u128;
    let rows_max = layout.max_rows as u128;
    let wrap_lim: usize = if wrap_width < 1 { 1 } else { wrap_width };
    let rows_lim: usize = if layout.max_rows < 1 { 1 } else { layout.max_rows };
    assert(wrap * cw <= 0xffff_ffff_ffff_ffff * 0xffff_ffff) by (nonlinear_arith)
        requires
            wrap <= 0xffff_ffff_ffff_ffff,
            cw <= 0xffff_ffff,
    ;
    assert(rows_max * ch <= 0xffff_ffff_ffff_ffff * 0xffff_ffff) by (nonlinear_arith)
        requires
            rows_max <= 0xffff_ffff_ffff_ffff,
            ch <= 0xffff_ffff,
    ;
    let wc = wrap * cw;
    let rc = rows_max * ch;
    // Whether the text width limits: wrap * cw <= w, and then A <= B
    let by_width = if wc <= w {
        assert(wc * h <= 0xffff_ffff * 0xffff_ffff) by (nonlinear_arith)
            requires
                wc <= w,
                w <= 0xffff_ffff,
                h <= 0xffff_ffff,
        ;
        if rc > 0xffff_ffff_ffff_ffff {
            assert(wc * h <= rc * w) by (nonlinear_arith)
                requires
                    wc * h <= 0xffff_ffff * 0xffff_ffff,
                    rc > 0xffff_ffff_ffff_ffff,
                    w >= 1,
            ;
            true
        } else {
            assert(rc * w <= 0xffff_ffff_ffff_ffff * 0xffff_ffff) by (nonlinear_arith)
                requires
                    rc <= 0xffff_ffff_ffff_ffff,
                    w <= 0xffff_ffff,
            ;
            wc * h <= rc * w
        }
    } else {
        false
    };
    let by_height = !by_width && rc <= h;
    if by_width {
        assert(h * wc <= 0xffff_ffff * 0xffff_ffff) by (nonlinear_arith)
            requires
                wc <= w,
                w <= 0xffff_ffff,
                h <= 0xffff_ffff,
        ;
        assert(w * ch <= 0xffff_ffff * 0xffff_ffff) by (nonlinear_arith)
            requires
                ch <= 0xffff_ffff,
                w <= 0xffff_ffff,
        ;
        assert(w * ch >= 1) by (nonlinear_arith)
            requires
                ch >= 1,
                w >= 1,
        ;
        assert(h * (wrap * cw) == h * wrap * cw) by (nonlinear_arith);
        let rows = ceil_div_u128(h * wc, w * ch);
        (clamp_usize(wrap, 1, wrap_lim), clamp_usize(rows, 1, rows_lim))
    } else if by_height {
        assert(w * rc <= 0xffff_ffff * 0xffff_ffff) by (nonlinear_arith)
            requires
                rc <= h,
                w <= 0xffff_ffff,
                h <= 0xffff_ffff,
        ;
        assert(h * cw <= 0xffff_ffff * 0xffff_ffff) by (nonlinear_arith)
            requires
                cw <= 0xffff_ffff,
                h <= 0xffff_ffff,
        ;
        assert(h * cw >= 1) by (nonlinear_arith)
            requires
                cw >= 1,
                h >= 1,
        ;
        assert(w * (rows_max * ch) == w * rows_max * ch) by (nonlinear_arith);
        let cols = ceil_div_u128(w * rc, h * cw);
        (clamp_usize(cols, 1, wrap_lim), clamp_usize(rows_max, 1, rows_lim))
    } else {
        let cols = ceil_div_u128(w, cw);
        let rows = ceil_div_u128(h, ch);
        (clamp_usize(cols, 1, wrap_lim), clamp_usize(rows, 1, rows_lim))
    }
}


/// The base64 digit for a six-bit value (RFC 4648).
pub open spec fn base64_digit(n: int) -> char {
    if n < 26 {
        (65 + n) as char
    } else if n < 52 {
        (97 + n - 26) as char
    } else if n < 62 {
        (48 + n - 52) as char
    } else if n == 62 {
        '+'
    } else {
        '/'
    }
}

fn base64_digit_of(n: u32) -> (c: char)
    requires
        n < 64,
    ensures
        c == base64_digit(n as int),
{
    let b: u8 = if n < 26 {
        (65 + n) as u8
    } else if n < 52 {
        (97 + n - 26) as u8
    } else if n < 62 {
        (48 + n - 52) as u8
    } else if n == 62 {
        43
    } else {
        47
    };
    b as char
}

/// Four characters for up to three bytes: their 24 bits, missing bytes as
/// zeros, six at a time; `=` for sextets holding only padding.
pub open spec fn base64_group(g: Seq<u8>) -> Seq<char> {
    let n = g[0] as int * 65536 + (if g.len() > 1 { g[1] as int } else { 0 }) * 256 + (if g.len()
        > 2 {
        g[2] as int
    } else {
        0
    });
    seq![
        base64_digit((n / 262144) % 64),
        base64_digit((n / 4096) % 64),
        if g.len() >= 2 { base64_digit((n / 64) % 64) } else { '=' },
        if g.len() >= 3 { base64_digit(n % 64) } else { '=' },
    ]
}

/// `data` in base64 with padding (RFC 4648).
pub open spec fn base64_of(data: Seq<u8>) -> Seq<char>
    decreases data.len(),
{
    if data.len() == 0 {
        Seq::empty()
    } else if data.len() <= 3 {
        base64_group(data)
    } else {
        base64_group(data.take(3)) + base64_of(data.skip(3))
    }
}

pub fn base64(data: &[u8]) -> (r: String)
    ensures
        r@ == base64_of(data@),
{
    let mut out: Vec<char> = Vec::new();
    let mut i: usize = 0;
    assert(data@.skip(0) =~= data@);
    while i < data.len()
        invariant
            i <= data.len(),
            out@ + base64_of(data@.skip(i as int)) == base64_of(data@),
        decreases data.len() - i,
    {
        let left = data.len() - i;
        let len: usize = if left >= 3 { 3 } else { left };
        let ghost g = data@.subrange(i as int, i + len);
        let b0 = data[i] as u32;
        let b1: u32 = if len > 1 { data[i + 1] as u32 } else { 0 };
        let b2: u32 = if len > 2 { data[i + 2] as u32 } else { 0 };
        let n: u32 = b0 * 65536 + b1 * 256 + b2;
        let c0 = base64_digit_of((n / 262144) % 64);
        let c1 = base64_digit_of((n / 4096) % 64);
        let c2 = if len >= 2 { base64_digit_of((n / 64) % 64) } else { '=' };
        let c3 = if len >= 3 { base64_digit_of(n % 64) } else { '=' };
        let ghost before = out@;
        out.push(c0);
        out.push(c1);
        out.push(c2);
        out.push(c3);
        assert(out@ =~= before + base64_group(g));
        let ghost rest = data@.skip(i as int);
        if left > 3 {
            assert(rest.take(3) =~= g);
            assert(rest.skip(3) =~= data@.skip(i + 3));
        } else {
            assert(rest =~= g);
            assert(data@.skip(i + len) =~= Seq::<u8>::empty());
        }
        i += len;
    }
    assert(data@.skip(i as int) =~= Seq::<u8>::empty());
    assert(out@ + Seq::<char>::empty() =~= out@);
    string_of(&out)
}

/// One step of 32-bit FNV-1a.
pub open spec fn fnv_step(hash: u32, byte: u8) -> u32 {
    (((hash ^ (byte as u32)) as int * 0x0100_0193) % 0x1_0000_0000) as u32
}

pub open spec fn fnv(hash: u32, bytes: Seq<u8>) -> u32
    decreases bytes.len(),
{
    if bytes.len() == 0 {
        hash
    } else {
        fnv_step(fnv(hash, bytes.drop_last()), bytes.last())
    }
}

/// The four little-endian bytes of `n`.
pub open spec fn le_bytes(n: u32) -> Seq<u8> {
    seq![(n % 256) as u8, ((n / 256) % 256) as u8, ((n / 65536) % 256) as u8, (n / 16777216) as u8]
}

/// A picture's id: 32-bit FNV-1a over its path and its size in little-endian
/// bytes, kept to 31 bits and never 0.
pub open spec fn picture_key(path_bytes: Seq<u8>, width: u32, height: u32) -> u32 {
    let h = fnv(0x811c_9dc5, path_bytes + le_bytes(width) + le_bytes(height));
    if h % 0x8000_0000 == 0 {
        1
    } else {
        (h % 0x8000_0000) as u32
    }
}

fn fnv_bytes(hash: u32, bytes: &[u8]) -> (r: u32)
    ensures
        r == fnv(hash, bytes@),
{
    let mut h = hash;
    let mut i: usize = 0;
    while i < bytes.len()
        invariant
            i <= bytes.len(),
            h == fnv(hash, bytes@.take(i as int)),
        decreases bytes.len() - i,
    {
        assert(bytes@.take(i + 1).drop_last() =~= bytes@.take(i as int));
        let x: u32 = h ^ (bytes[i] as u32);
        h = ((x as u64 * 0x0100_0193u64) % 0x1_0000_0000u64) as u32;
        i += 1;
    }
    assert(bytes@.take(bytes.len() as int) =~= bytes@);
    h
}

proof fn lemma_fnv_append(hash: u32, a: Seq<u8>, b: Seq<u8>)
    ensures
        fnv(hash, a + b) == fnv(fnv(hash, a), b),
    decreases b.len(),
{
    if b.len() == 0 {
        assert(a + b =~= a);
    } else {
        lemma_fnv_append(hash, a, b.drop_last());
        assert((a + b).drop_last() =~= a + b.drop_last());
    }
}

fn le_bytes_of(n: u32) -> (r: Vec<u8>)
    ensures
        r@ == le_bytes(n),
{
    let mut v: Vec<u8> = Vec::new();
    v.push((n % 256) as u8);
    v.push(((n / 256) % 256) as u8);
    v.push(((n / 65536) % 256) as u8);
    v.push((n / 16777216) as u8);
    assert(v@ =~= le_bytes(n));
    v
}

/// Picture ids are shared by everything in the terminal window, so they come
/// from the picture and its size rather than counting up from 1.
pub fn picture_id(path: &str, width: u32, height: u32) -> (r: u32)
    ensures
        r == picture_key(crate::text::utf8(path@), width, height),
        1 <= r < 0x8000_0000,
{
    let chars = chars_of(path);
    let bytes = crate::text::utf8_bytes(&chars);
    let h0 = fnv_bytes(0x811c_9dc5, &bytes);
    let wb = le_bytes_of(width);
    let hb = le_bytes_of(height);
    let h1 = fnv_bytes(h0, &wb);
    let h2 = fnv_bytes(h1, &hb);
    proof {
        lemma_fnv_append(0x811c_9dc5, bytes@, le_bytes(width));
        lemma_fnv_append(0x811c_9dc5, bytes@ + le_bytes(width), le_bytes(height));
    }
    let m = h2 % 0x8000_0000;
    if m == 0 {
        1
    } else {
        m
    }
}


/// The first `k` fields of `s` separated by the separator, and what follows
/// the `k`-th separator; None if `s` has fewer than `k` separators.
pub open spec fn fields(s: Seq<char>, k: nat) -> Option<(Seq<Seq<char>>, Seq<char>)>
    decreases k,
{
    if k == 0 {
        Some((Seq::empty(), s))
    } else {
        match find_str(s, seq![SEPARATOR]) {
            None => None,
            Some(i) => match fields(s.skip(i + 1), (k - 1) as nat) {
                Some((fs, rest)) => Some((seq![s.take(i)] + fs, rest)),
                None => None,
            },
        }
    }
}

/// One row of a picture, read back from its marker line.
#[derive(Debug)]
pub struct Row {
    pub row: usize,
    pub rows: usize,
    pub col: usize,
    pub cols: usize,
    pub path: String,
}

/// The row a marker line describes: after the marker, four numbers and the
/// picture's path, separated by the separator; None for any other line.
pub open spec fn marker_row(line: Seq<char>) -> Option<(nat, nat, nat, nat, Seq<char>)> {
    if line.len() == 0 || line[0] != MARKER {
        None
    } else {
        match fields(line.drop_first(), 4) {
            Some((fs, path)) => {
                let m = usize::MAX as nat;
                if parse_unsigned(fs[0], m) is Some && parse_unsigned(fs[1], m) is Some
                    && parse_unsigned(fs[2], m) is Some && parse_unsigned(fs[3], m) is Some {
                    Some(
                        (
                            parse_unsigned(fs[0], m).unwrap(),
                            parse_unsigned(fs[1], m).unwrap(),
                            parse_unsigned(fs[2], m).unwrap(),
                            parse_unsigned(fs[3], m).unwrap(),
                            path,
                        ),
                    )
                } else {
                    None
                }
            },
            None => None,
        }
    }
}

pub open spec fn row_view(r: Row) -> (nat, nat, nat, nat, Seq<char>) {
    (r.row as nat, r.rows as nat, r.col as nat, r.cols as nat, r.path@)
}

/// Splits off the first `k` fields of `v` after `start`.
fn split_fields(v: &[char], start: usize, k: usize) -> (r: Option<(Vec<Vec<char>>, usize)>)
    requires
        start <= v.len(),
    ensures
        match r {
            Some((fs, at)) => at <= v.len() && fs@.len() == k && fields(v@.skip(start as int), k as nat) == Some(
                (views(fs@), v@.skip(at as int)),
            ),
            None => fields(v@.skip(start as int), k as nat) is None,
        },
    decreases k,
{
    if k == 0 {
        return Some((Vec::new(), start));
    }
    let sep: Vec<char> = vec![SEPARATOR];
    assert(sep@ =~= seq![SEPARATOR]);
    match find_in(v, start, &sep) {
        None => None,
        Some(i) => {
            let ghost s = v@.skip(start as int);
            assert(s.skip(i - start + 1) =~= v@.skip(i + 1));
            let first = slice(v, start, i);
            assert(first@ =~= s.take(i - start));
            match split_fields(v, i + 1, k - 1) {
                None => None,
                Some((rest, at)) => {
                    let mut fs: Vec<Vec<char>> = Vec::new();
                    fs.push(first);
                    let mut j: usize = 0;
                    let ghost rv = views(rest@);
                    while j < rest.len()
                        invariant
                            j <= rest@.len(),
                            rv == views(rest@),
                            fs@.len() == j + 1,
                            views(fs@) == seq![s.take(i - start)] + rv.take(j as int),
                        decreases rest.len() - j,
                    {
                        let piece = slice(&rest[j], 0, rest[j].len());
                        assert(piece@ =~= rest@[j as int]@);
                        let ghost before = views(fs@);
                        fs.push(piece);
                        assert(views(fs@) =~= before.push(rv[j as int]));
                        assert(rv.take(j + 1) =~= rv.take(j as int).push(rv[j as int]));
                        j += 1;
                    }
                    assert(rv.take(rest@.len() as int) =~= rv);
                    Some((fs, at))
                },
            }
        },
    }
}

fn parse_number(v: &[char]) -> (r: Option<usize>)
    ensures
        match r {
            Some(n) => parse_unsigned(v@, usize::MAX as nat) == Some(n as nat),
            None => parse_unsigned(v@, usize::MAX as nat) is None,
        },
{
    match parse_unsigned_chars(v, usize::MAX as u64) {
        Some(n) => Some(n as usize),
        None => None,
    }
}

/// One row of a picture, read back from its marker line.
pub fn parse_row(line: &str) -> (r: Option<Row>)
    ensures
        match r {
            Some(row) => marker_row(line@) == Some(row_view(row)),
            None => marker_row(line@) is None,
        },
{
    let v = chars_of(line);
    if v.len() == 0 || v[0] != MARKER {
        return None;
    }
    assert(v@.skip(1) =~= v@.drop_first());
    match split_fields(&v, 1, 4) {
        None => None,
        Some((fs, at)) => {
            let row = parse_number(&fs[0]);
            let rows = parse_number(&fs[1]);
            let col = parse_number(&fs[2]);
            let cols = parse_number(&fs[3]);
            if row.is_none() || rows.is_none() || col.is_none() || cols.is_none() {
                return None;
            }
            let path_v = slice(&v, at, v.len());
            assert(path_v@ =~= v@.skip(at as int));
            Some(
                Row {
                    row: row.unwrap(),
                    rows: rows.unwrap(),
                    col: col.unwrap(),
                    cols: cols.unwrap(),
                    path: string_of(&path_v),
                },
            )
        },
    }
}

/// The command that removes every picture from the screen.
pub open spec fn clear_command() -> Seq<char> {
    "\x1b_Ga=d,d=a,q=2\x1b\\"@
}

/// The command that frees the picture with id `id`.
pub open spec fn free_command(id: u32) -> Seq<char> {
    "\x1b_Ga=d,d=I,i="@ + decimal(id as nat) + ",q=2\x1b\\"@
}

pub open spec fn free_commands(ids: Seq<u32>) -> Seq<char>
    decreases ids.len(),
{
    if ids.len() == 0 {
        Seq::empty()
    } else {
        free_commands(ids.drop_last()) + free_command(ids.last())
    }
}

/// Pictures on a terminal with the kitty graphics protocol. Each picture is
/// sent once and kept by the terminal under its id; every frame then places
/// the visible ones, cropped to the rows on screen.
pub struct Kitty {
    /// The ids sent so far, each once (the type's invariant), in the order
    /// they were sent. A vector rather than a hash set: `release` walks every
    /// id to free it, and a vector's order is one Verus can follow, where a
    /// hash set's iteration order is left open.
    sent: Vec<u32>,
}

impl View for Kitty {
    type V = Set<u32>;

    closed spec fn view(&self) -> Set<u32> {
        self.sent@.to_set()
    }
}

impl Kitty {
    #[verifier::type_invariant]
    spec fn no_repeats(&self) -> bool {
        self.sent@.no_duplicates()
    }

    /// No picture sent yet.
    pub fn new() -> (k: Self)
        ensures
            k@ == Set::<u32>::empty(),
    {
        let k = Kitty { sent: Vec::new() };
        assert(k.sent@.to_set() =~= Set::<u32>::empty());
        k
    }

    /// Whether the terminal already holds the picture with id `id`.
    pub fn has(&self, id: u32) -> (r: bool)
        ensures
            r == self@.contains(id),
    {
        let mut i: usize = 0;
        while i < self.sent.len()
            invariant
                i <= self.sent@.len(),
                forall|j: int| 0 <= j < i ==> self.sent@[j] != id,
            decreases self.sent.len() - i,
        {
            if self.sent[i] == id {
                assert(self.sent@.contains(id));
                return true;
            }
            i += 1;
        }
        false
    }

    /// Records that the picture with id `id` has been sent.
    pub fn mark_sent(&mut self, id: u32)
        ensures
            final(self)@ == old(self)@.insert(id),
    {
        if !self.has(id) {
            proof {
                use_type_invariant(&*self);
            }
            let ghost before = self.sent@;
            let mut sent: Vec<u32> = Vec::new();
            std::mem::swap(&mut sent, &mut self.sent);
            sent.push(id);
            assert(sent@ == before.push(id));
            assert(sent@.no_duplicates()) by {
                assert forall|i: int, j: int| 0 <= i < sent@.len() && 0 <= j < sent@.len() && i != j
                    implies sent@[i] != sent@[j] by {
                    if i < before.len() && j < before.len() {
                    } else if i == before.len() {
                        assert(!before.contains(id));
                    } else {
                        assert(!before.contains(id));
                    }
                }
            }
            self.sent = sent;
            proof {
                Seq::<u32>::lemma_to_set_insert_commutes(before, id);
                assert(before + seq![id] =~= before.push(id));
            }
        } else {
            assert(self@.insert(id) =~= self@);
        }
    }

    /// What removes every picture from the screen; run before each frame.
    /// Nothing until a picture has been sent.
    pub fn clear(&self) -> (r: String)
        ensures
            r@ == (if self@.len() == 0 { Seq::<char>::empty() } else { clear_command() }),
    {
        proof {
            self.sent@.lemma_cardinality_of_set();
            use_type_invariant(self);
            self.sent@.unique_seq_to_set();
        }
        if self.sent.len() == 0 {
            string_of(&Vec::new())
        } else {
            let v = chars_of("\x1b_Ga=d,d=a,q=2\x1b\\");
            string_of(&v)
        }
    }

    /// What frees every picture the terminal holds for us, each once; run on
    /// exit. Afterwards no picture counts as sent.
    pub fn release(&mut self) -> (r: String)
        ensures
            final(self)@ == Set::<u32>::empty(),
            exists|ids: Seq<u32>|
                ids.no_duplicates() && ids.to_set() == old(self)@ && r@ == free_commands(ids),
    {
        proof {
            use_type_invariant(&*self);
        }
        let ghost ids = self.sent@;
        let mut out: Vec<char> = Vec::new();
        let mut i: usize = 0;
        while i < self.sent.len()
            invariant
                i <= self.sent@.len(),
                ids == self.sent@,
                out@ == free_commands(ids.take(i as int)),
            decreases self.sent.len() - i,
        {
            push_str(&mut out, "\x1b_Ga=d,d=I,i=");
            push_decimal(&mut out, self.sent[i] as u64);
            push_str(&mut out, ",q=2\x1b\\");
            assert(ids.take(i + 1).drop_last() =~= ids.take(i as int));
            i += 1;
        }
        assert(ids.take(ids.len() as int) =~= ids);
        self.sent = Vec::new();
        assert(self.sent@.to_set() =~= Set::<u32>::empty());
        string_of(&out)
    }
}

} // verus!
