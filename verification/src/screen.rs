//! A small terminal screen that replays what the reader draws: the
//! characters on each row, plus the kitty graphics commands seen. It knows
//! cursor moves, line erases and wide characters, and skips colors and other
//! escape sequences. Tests read the reader's output back through it.

use vstd::prelude::*;
use crate::text::{chars_of, utf8, parse_unsigned, parse_unsigned_chars, split, split_at_char, string_of, trim_end, lemma_split_nonempty};
use crate::width::{char_columns, char_width};

verus! {

/// Marks the second cell of a wide character.
pub const WIDE: char = '\0';

/// What `String::from_utf8_lossy` makes of `bytes`.
pub uninterp spec fn lossy_text(bytes: Seq<u8>) -> Seq<char>;

/// Whether every byte is ASCII.
pub open spec fn ascii_bytes(bytes: Seq<u8>) -> bool {
    forall|i: int| 0 <= i < bytes.len() ==> #[trigger] bytes[i] < 0x80
}

/// ASCII bytes as the characters they encode.
pub open spec fn ascii_text(bytes: Seq<u8>) -> Seq<char> {
    bytes.map_values(|b: u8| b as char)
}

/// The characters of `bytes` read as UTF-8, each invalid sequence replaced
/// by U+FFFD (`String::from_utf8_lossy`). The contract names the result
/// `lossy_text`, and states what std's documentation gives: valid UTF-8
/// reads back as the characters it encodes (ASCII bytes, in particular, as
/// themselves). What an invalid sequence becomes is left to std.
#[verifier::external_body]
fn lossy_chars(bytes: &[u8]) -> (r: Vec<char>)
    ensures
        r@ == lossy_text(bytes@),
        forall|t: Seq<char>| #[trigger] utf8(t) == bytes@ ==> r@ == t,
        ascii_bytes(bytes@) ==> r@ == ascii_text(bytes@),
{
    String::from_utf8_lossy(bytes).chars().collect()
}

/// Where the reading of escape sequences stands.
pub enum Parse {
    Text,
    /// Just after ESC
    Esc,
    /// In a control sequence, with the parameters so far
    Csi(Seq<char>),
    /// In an OSC (`apc` false) or APC string, with its body so far; `esc`
    /// when an ESC was just read, which ends the string if `\` follows
    Str { apc: bool, body: Seq<char>, esc: bool },
}

/// The screen and the cursor while output is replayed.
pub struct Term {
    pub cells: Seq<Seq<char>>,
    pub kitty: Seq<Seq<char>>,
    pub overflowed: bool,
    pub row: usize,
    pub col: usize,
    pub mode: Parse,
}

/// `a + b`, held at the largest `usize`.
pub open spec fn sat_add(a: usize, b: usize) -> usize {
    if a + b > usize::MAX { usize::MAX } else { (a + b) as usize }
}

/// A cursor position parameter: the number written, or 1 where there is
/// none or it is not a number.
pub open spec fn param(p: Seq<char>) -> nat {
    match parse_unsigned(p, usize::MAX as nat) {
        Some(n) => n,
        None => 1,
    }
}

/// A one-based cursor position, made zero-based.
pub open spec fn position(p: Seq<char>) -> usize {
    if param(p) < 1 { 0 } else { (param(p) - 1) as usize }
}

/// `line` erased from `from` to its end.
pub open spec fn erased(line: Seq<char>, from: int) -> Seq<char> {
    line.take(from) + Seq::new((line.len() - from) as nat, |i: int| ' ')
}

/// The end of a control sequence with final character `last`: `H` moves the
/// cursor, `K` erases the line from the cursor (all of it for `2`).
pub open spec fn control(t: Term, params: Seq<char>, last: char, cols: usize, rows: usize) -> Term {
    if last == 'H' {
        let at = split(params, ';');
        Term {
            row: position(at[0]),
            col: if at.len() > 1 { position(at[1]) } else { 0 },
            mode: Parse::Text,
            ..t
        }
    } else if last == 'K' && t.row < rows {
        let from = if params == seq!['2'] { 0 } else if t.col < cols { t.col as int } else { cols as int };
        Term { cells: t.cells.update(t.row as int, erased(t.cells[t.row as int], from)), mode: Parse::Text, ..t }
    } else {
        Term { mode: Parse::Text, ..t }
    }
}

/// An OSC or APC string that ended: kitty graphics commands are kept.
pub open spec fn string_end(t: Term, apc: bool, body: Seq<char>) -> Term {
    Term {
        kitty: if apc && body.len() > 0 && body[0] == 'G' { t.kitty.push(body) } else { t.kitty },
        mode: Parse::Text,
        ..t
    }
}

/// A printed character: written at the cursor if it fits on the screen,
/// the cell after it marked for a wide one; the cursor moves on by its width.
pub open spec fn printed(t: Term, c: char, cols: usize, rows: usize) -> Term {
    let w = char_width(c);
    if w == 0 {
        t
    } else if t.row >= rows || t.col + w > cols {
        Term { overflowed: true, col: sat_add(t.col, w as usize), ..t }
    } else {
        let line = t.cells[t.row as int].update(t.col as int, c);
        let line = if w == 2 { line.update(t.col + 1, WIDE) } else { line };
        Term { cells: t.cells.update(t.row as int, line), col: sat_add(t.col, w as usize), ..t }
    }
}

/// The screen after one more character of output.
pub open spec fn feed(t: Term, c: char, cols: usize, rows: usize) -> Term {
    match t.mode {
        Parse::Text => if c == '\x1b' {
            Term { mode: Parse::Esc, ..t }
        } else if c == '\r' {
            Term { col: 0, ..t }
        } else if c == '\n' {
            Term { row: sat_add(t.row, 1), ..t }
        } else {
            printed(t, c, cols, rows)
        },
        Parse::Esc => if c == '[' {
            Term { mode: Parse::Csi(Seq::empty()), ..t }
        } else if c == ']' || c == '_' {
            Term { mode: Parse::Str { apc: c == '_', body: Seq::empty(), esc: false }, ..t }
        } else {
            Term { mode: Parse::Text, ..t }
        },
        Parse::Csi(params) => if '\x40' <= c <= '\x7e' {
            control(t, params, c, cols, rows)
        } else {
            Term { mode: Parse::Csi(params.push(c)), ..t }
        },
        Parse::Str { apc, body, esc } => if esc && c == '\\' {
            string_end(t, apc, body)
        } else {
            let body = if esc { body.push('\x1b') } else { body };
            if c == '\x07' {
                string_end(t, apc, body)
            } else if c == '\x1b' {
                Term { mode: Parse::Str { apc, body, esc: true }, ..t }
            } else {
                Term { mode: Parse::Str { apc, body: body.push(c), esc: false }, ..t }
            }
        },
    }
}

/// The screen after the characters `s`.
pub open spec fn fed(t: Term, s: Seq<char>, cols: usize, rows: usize) -> Term
    decreases s.len(),
{
    if s.len() == 0 {
        t
    } else {
        feed(fed(t, s.drop_last(), cols, rows), s.last(), cols, rows)
    }
}

/// The end of the output: a string still open counts as ended there.
pub open spec fn finished(t: Term) -> Term {
    match t.mode {
        Parse::Str { apc, body, esc } => string_end(t, apc, if esc { body.push('\x1b') } else { body }),
        _ => t,
    }
}

/// A row of `cols` spaces.
pub open spec fn blank_line(cols: usize) -> Seq<char> {
    Seq::new(cols as nat, |j: int| ' ')
}

/// A blank screen of `rows` rows of `cols` spaces, the cursor at the top left.
pub open spec fn blank(cols: usize, rows: usize) -> Term {
    Term {
        cells: Seq::new(rows as nat, |i: int| blank_line(cols)),
        kitty: Seq::empty(),
        overflowed: false,
        row: 0,
        col: 0,
        mode: Parse::Text,
    }
}

/// What a terminal of `cols` by `rows` shows after the characters `text`.
pub open spec fn replayed_text(cols: usize, rows: usize, text: Seq<char>) -> Term {
    finished(fed(blank(cols, rows), text, cols, rows))
}

/// What a terminal of `cols` by `rows` shows after the output `bytes`.
pub open spec fn replayed(cols: usize, rows: usize, bytes: Seq<u8>) -> Term {
    replayed_text(cols, rows, lossy_text(bytes))
}

pub struct Screen {
    cells: Vec<Vec<char>>,
    pub kitty: Vec<String>,
    /// Text was written past the right edge, which would wrap on a real terminal
    pub overflowed: bool,
}

/// The characters on each row, the kitty graphics commands seen, and
/// whether anything was written past the edge.
pub struct ScreenView {
    pub cells: Seq<Seq<char>>,
    pub kitty: Seq<Seq<char>>,
    pub overflowed: bool,
}

impl View for Screen {
    type V = ScreenView;

    closed spec fn view(&self) -> ScreenView {
        ScreenView { cells: grid(self.cells@), kitty: strings(self.kitty@), overflowed: self.overflowed }
    }
}

pub open spec fn grid(cells: Seq<Vec<char>>) -> Seq<Seq<char>> {
    cells.map_values(|r: Vec<char>| r@)
}

pub open spec fn strings(v: Seq<String>) -> Seq<Seq<char>> {
    v.map_values(|s: String| s@)
}

/// Every row of `cells` is `cols` long.
pub open spec fn rows_of(cells: Seq<Seq<char>>, cols: usize) -> bool {
    forall|i: int| 0 <= i < cells.len() ==> #[trigger] cells[i].len() == cols
}

enum Mode {
    Text,
    Esc,
    Csi,
    Str { apc: bool, esc: bool },
}

/// The spec mode that the exec mode and its buffers stand for.
spec fn mode_view(m: Mode, params: Seq<char>, body: Seq<char>) -> Parse {
    match m {
        Mode::Text => Parse::Text,
        Mode::Esc => Parse::Esc,
        Mode::Csi => Parse::Csi(params),
        Mode::Str { apc, esc } => Parse::Str { apc, body, esc },
    }
}

fn spaces_line(cols: usize) -> (r: Vec<char>)
    ensures
        r@ == blank_line(cols),
{
    let mut line: Vec<char> = Vec::new();
    let mut j: usize = 0;
    while j < cols
        invariant
            j <= cols,
            line@ == Seq::new(j as nat, |k: int| ' '),
        decreases cols - j,
    {
        line.push(' ');
        j += 1;
        assert(line@ =~= Seq::new(j as nat, |k: int| ' '));
    }
    assert(line@ =~= blank_line(cols));
    line
}

fn blank_cells(cols: usize, rows: usize) -> (r: Vec<Vec<char>>)
    ensures
        grid(r@) == blank(cols, rows).cells,
        r@.len() == rows,
{
    let mut cells: Vec<Vec<char>> = Vec::new();
    let mut i: usize = 0;
    while i < rows
        invariant
            i <= rows,
            cells@.len() == i,
            grid(cells@) == Seq::new(i as nat, |k: int| blank_line(cols)),
        decreases rows - i,
    {
        let ghost before = cells@;
        cells.push(spaces_line(cols));
        i += 1;
        assert forall|k: int| 0 <= k < i implies #[trigger] grid(cells@)[k] == blank_line(cols) by {
            if k < i - 1 {
                assert(cells@[k] == before[k]);
                assert(grid(before)[k] == blank_line(cols));
            }
        }
        assert(grid(cells@) =~= Seq::new(i as nat, |k: int| blank_line(cols)));
    }
    cells
}

fn position_of(p: &Vec<char>) -> (r: usize)
    ensures
        r == position(p@),
{
    let n = match parse_unsigned_chars(p.as_slice(), usize::MAX as u64) {
        Some(n) => n as usize,
        None => 1,
    };
    if n < 1 { 0 } else { n - 1 }
}

impl Screen {
    /// What a `cols` by `rows` terminal shows after `bytes` of output.
    pub fn replay(cols: usize, rows: usize, bytes: &[u8]) -> (s: Screen)
        ensures
            ({
                let t = replayed(cols, rows, bytes@);
                &&& s@.cells == t.cells
                &&& s@.kitty == t.kitty
                &&& s@.overflowed == t.overflowed
            }),
            forall|text: Seq<char>| #[trigger] utf8(text) == bytes@ ==> ({
                let t = replayed_text(cols, rows, text);
                &&& s@.cells == t.cells
                &&& s@.kitty == t.kitty
                &&& s@.overflowed == t.overflowed
            }),
            ascii_bytes(bytes@) ==> ({
                let t = replayed_text(cols, rows, ascii_text(bytes@));
                &&& s@.cells == t.cells
                &&& s@.kitty == t.kitty
                &&& s@.overflowed == t.overflowed
            }),
    {
        Self::from_chars(cols, rows, lossy_chars(bytes))
    }

    /// What a `cols` by `rows` terminal shows after the output `text`.
    pub fn replay_text(cols: usize, rows: usize, text: &str) -> (s: Screen)
        ensures
            ({
                let t = replayed_text(cols, rows, text@);
                &&& s@.cells == t.cells
                &&& s@.kitty == t.kitty
                &&& s@.overflowed == t.overflowed
            }),
    {
        Self::from_chars(cols, rows, chars_of(text))
    }

    fn from_chars(cols: usize, rows: usize, text: Vec<char>) -> (s: Screen)
        ensures
            ({
                let t = replayed_text(cols, rows, text@);
                &&& s@.cells == t.cells
                &&& s@.kitty == t.kitty
                &&& s@.overflowed == t.overflowed
            }),
    {
        let mut cells = blank_cells(cols, rows);
        let mut kitty: Vec<String> = Vec::new();
        let mut overflowed = false;
        let mut row: usize = 0;
        let mut col: usize = 0;
        let mut mode = Mode::Text;
        let mut params: Vec<char> = Vec::new();
        let mut body: Vec<char> = Vec::new();
        let ghost start = blank(cols, rows);
        assert(strings(kitty@) =~= Seq::<Seq<char>>::empty());
        assert(rows_of(grid(cells@), cols)) by {
            assert forall|k: int| 0 <= k < grid(cells@).len() implies #[trigger] grid(cells@)[k].len() == cols by {
                assert(grid(cells@)[k] == start.cells[k]);
            }
        }
        assert(fed(start, text@.take(0), cols, rows) == start);
        assert(text@.take(0) =~= Seq::<char>::empty());
        let mut i: usize = 0;
        while i < text.len()
            invariant
                i <= text.len(),
                cells@.len() == rows,
                rows_of(grid(cells@), cols),
                start == blank(cols, rows),
                ({
                    let t = fed(start, text@.take(i as int), cols, rows);
                    &&& grid(cells@) == t.cells
                    &&& strings(kitty@) == t.kitty
                    &&& overflowed == t.overflowed
                    &&& row == t.row
                    &&& col == t.col
                    &&& mode_view(mode, params@, body@) == t.mode
                }),
            decreases text.len() - i,
        {
            let c = text[i];
            let ghost before = fed(start, text@.take(i as int), cols, rows);
            assert(text@.take(i + 1).drop_last() =~= text@.take(i as int));
            assert(text@.take(i + 1).last() == c);
            match mode {
                Mode::Text => {
                    if c == '\x1b' {
                        mode = Mode::Esc;
                    } else if c == '\r' {
                        col = 0;
                    } else if c == '\n' {
                        row = row.saturating_add(1);
                    } else {
                        let w = char_columns(c);
                        if w == 0 {
                        } else if row >= rows || w > cols || col > cols - w {
                            overflowed = true;
                            col = col.saturating_add(w);
                        } else {
                            let ghost old_cells = grid(cells@);
                            let mut line: Vec<char> = Vec::new();
                            std::mem::swap(&mut line, &mut cells[row]);
                            line.set(col, c);
                            if w == 2 {
                                line.set(col + 1, WIDE);
                            }
                            let ghost new_line = line@;
                            std::mem::swap(&mut line, &mut cells[row]);
                            assert(grid(cells@) =~= old_cells.update(row as int, new_line));
                            col = col + w;
                        }
                    }
                },
                Mode::Esc => {
                    if c == '[' {
                        params = Vec::new();
                        mode = Mode::Csi;
                        assert(params@ =~= Seq::<char>::empty());
                    } else if c == ']' || c == '_' {
                        body = Vec::new();
                        mode = Mode::Str { apc: c == '_', esc: false };
                        assert(body@ =~= Seq::<char>::empty());
                    } else {
                        mode = Mode::Text;
                    }
                },
                Mode::Csi => {
                    if '\x40' <= c && c <= '\x7e' {
                        if c == 'H' {
                            let at = split_at_char(params.as_slice(), ';');
                            proof {
                                lemma_split_nonempty(params@, ';');
                            }
                            row = position_of(&at[0]);
                            col = if at.len() > 1 { position_of(&at[1]) } else { 0 };
                        } else if c == 'K' && row < rows {
                            let whole = params.len() == 1 && params[0] == '2';
                            assert(whole == (params@ == seq!['2'])) by {
                                if params@.len() == 1 && params@[0] == '2' {
                                    assert(params@ =~= seq!['2']);
                                }
                            }
                            let from = if whole { 0 } else if col < cols { col } else { cols };
                            let ghost old_cells = grid(cells@);
                            let mut line: Vec<char> = Vec::new();
                            std::mem::swap(&mut line, &mut cells[row]);
                            let mut j = from;
                            while j < line.len()
                                invariant
                                    from <= j <= line.len(),
                                    line.len() == cols,
                                    line@.take(from as int) == old_cells[row as int].take(from as int),
                                    forall|k: int| from <= k < j ==> line@[k] == ' ',
                                    forall|k: int| j <= k < line.len() ==> line@[k] == old_cells[row as int][k],
                                decreases line.len() - j,
                            {
                                line.set(j, ' ');
                                j += 1;
                            }
                            assert(line@ =~= erased(old_cells[row as int], from as int));
                            std::mem::swap(&mut line, &mut cells[row]);
                            assert(grid(cells@) =~= old_cells.update(row as int, erased(old_cells[row as int], from as int)));
                        }
                        mode = Mode::Text;
                    } else {
                        params.push(c);
                    }
                },
                Mode::Str { apc, esc } => {
                    if esc && c == '\\' {
                        if apc && body.len() > 0 && body[0] == 'G' {
                            kitty.push(string_of(&body));
                        }
                        mode = Mode::Text;
                    } else {
                        if esc {
                            body.push('\x1b');
                        }
                        if c == '\x07' {
                            if apc && body.len() > 0 && body[0] == 'G' {
                                kitty.push(string_of(&body));
                            }
                            mode = Mode::Text;
                        } else if c == '\x1b' {
                            mode = Mode::Str { apc, esc: true };
                        } else {
                            body.push(c);
                            mode = Mode::Str { apc, esc: false };
                        }
                    }
                    assert(strings(kitty@) =~= feed(before, c, cols, rows).kitty);
                },
            }
            i += 1;
            assert(grid(cells@) =~= fed(start, text@.take(i as int), cols, rows).cells);
        }
        assert(text@.take(text.len() as int) =~= text@);
        if let Mode::Str { apc, esc } = mode {
            if esc {
                body.push('\x1b');
            }
            if apc && body.len() > 0 && body[0] == 'G' {
                kitty.push(string_of(&body));
            }
        }
        assert(strings(kitty@) =~= replayed_text(cols, rows, text@).kitty);
        Screen { cells, kitty, overflowed }
    }
}

/// A row's text: its characters without the marks of wide characters, and
/// without trailing whitespace.
pub open spec fn row_text(line: Seq<char>) -> Seq<char> {
    trim_end(line.filter(|c: char| c != WIDE))
}

/// Rows joined with line breaks.
pub open spec fn lines_joined(rows: Seq<Seq<char>>) -> Seq<char>
    decreases rows.len(),
{
    if rows.len() == 0 {
        Seq::empty()
    } else if rows.len() == 1 {
        rows[0]
    } else {
        lines_joined(rows.drop_last()) + seq!['\n'] + rows.last()
    }
}

/// The last place in `line` before `end` that holds `c`.
pub open spec fn last_index(line: Seq<char>, c: char, end: int) -> Option<int>
    decreases end,
{
    if end <= 0 {
        None
    } else if line[end - 1] == c {
        Some(end - 1)
    } else {
        last_index(line, c, end - 1)
    }
}

fn row_chars(line: &Vec<char>) -> (r: Vec<char>)
    ensures
        r@ == row_text(line@),
{
    let mut kept: Vec<char> = Vec::new();
    let mut i: usize = 0;
    while i < line.len()
        invariant
            i <= line.len(),
            kept@ == line@.take(i as int).filter(|c: char| c != WIDE),
        decreases line.len() - i,
    {
        let ghost before = line@.take(i as int);
        assert(line@.take(i + 1) =~= before.push(line@[i as int]));
        proof {
            before.lemma_filter_push(line@[i as int], |c: char| c != WIDE);
        }
        if line[i] != WIDE {
            kept.push(line[i]);
        }
        i += 1;
    }
    assert(line@.take(line.len() as int) =~= line@);
    let mut j: usize = kept.len();
    assert(kept@.take(j as int) =~= kept@);
    while j > 0 && crate::text::is_white_space_char(kept[j - 1])
        invariant
            j <= kept.len(),
            trim_end(kept@) == trim_end(kept@.take(j as int)),
        decreases j,
    {
        assert(kept@.take(j as int).drop_last() =~= kept@.take(j - 1));
        j -= 1;
    }
    let r = crate::text::slice(&kept, 0, j);
    assert(r@ =~= kept@.take(j as int));
    r
}

impl Screen {
    /// A row's text, trailing spaces trimmed.
    pub fn row(&self, y: usize) -> (r: String)
        requires
            y < self@.cells.len(),
        ensures
            r@ == row_text(self@.cells[y as int]),
    {
        let v = row_chars(&self.cells[y]);
        string_of(&v)
    }

    /// Every row, joined with line breaks.
    pub fn text(&self) -> (r: String)
        ensures
            r@ == lines_joined(self@.cells.map_values(|l: Seq<char>| row_text(l))),
    {
        let ghost rows = self@.cells.map_values(|l: Seq<char>| row_text(l));
        let mut out: Vec<char> = Vec::new();
        let mut y: usize = 0;
        while y < self.cells.len()
            invariant
                y <= self.cells@.len(),
                rows == self@.cells.map_values(|l: Seq<char>| row_text(l)),
                rows.len() == self.cells@.len(),
                out@ == lines_joined(rows.take(y as int)),
            decreases self.cells.len() - y,
        {
            if y > 0 {
                out.push('\n');
            }
            let v = row_chars(&self.cells[y]);
            let ghost before = out@;
            crate::text::push_all(&mut out, &v);
            proof {
                assert(rows[y as int] == v@);
                assert(rows.take(y + 1).drop_last() =~= rows.take(y as int));
                if y == 0 {
                    assert(rows.take(1) =~= seq![v@]);
                    assert(lines_joined(rows.take(0)) =~= Seq::<char>::empty());
                    assert(out@ =~= v@);
                }
            }
            y += 1;
            assert(out@ =~= lines_joined(rows.take(y as int)));
        }
        assert(rows.take(self.cells.len() as int) =~= rows);
        string_of(&out)
    }

    /// The screen column of the last `c` in row `y`.
    pub fn last_column_of(&self, y: usize, c: char) -> (r: Option<usize>)
        requires
            y < self@.cells.len(),
        ensures
            match last_index(self@.cells[y as int], c, self@.cells[y as int].len() as int) {
                Some(i) => r == Some(i as usize),
                None => r.is_none(),
            },
    {
        let line = &self.cells[y];
        let mut j: usize = line.len();
        while j > 0
            invariant
                j <= line@.len(),
                line@ == self@.cells[y as int],
                last_index(line@, c, line@.len() as int) == last_index(line@, c, j as int),
            decreases j,
        {
            if line[j - 1] == c {
                return Some(j - 1);
            }
            j -= 1;
        }
        None
    }

    /// How many rows the screen has.
    pub fn rows(&self) -> (r: usize)
        ensures
            r == self@.cells.len(),
    {
        self.cells.len()
    }
}

/// The filler word for word `w` of paragraph `p`: "p{p}w{w}".
pub open spec fn filler_word(p: nat, w: nat) -> Seq<char> {
    seq!['p'] + crate::text::decimal(p) + seq!['w'] + crate::text::decimal(w)
}

/// The first `n` filler words of paragraph `p`, separated by spaces.
pub open spec fn filler_words(p: nat, n: nat) -> Seq<char>
    decreases n,
{
    if n == 0 {
        Seq::empty()
    } else if n == 1 {
        filler_word(p, 0)
    } else {
        filler_words(p, (n - 1) as nat) + seq![' '] + filler_word(p, (n - 1) as nat)
    }
}

/// The first `n` paragraphs of `words` filler words each.
pub open spec fn filler(n: nat, words: nat) -> Seq<char>
    decreases n,
{
    if n == 0 {
        Seq::empty()
    } else {
        filler((n - 1) as nat, words) + "<p>"@ + filler_words((n - 1) as nat, words) + "</p>"@
    }
}

/// `count` paragraphs of `words` numbered filler words each ("p0w0 p0w1 …"),
/// so a test can tell exactly which text is on screen.
pub fn paragraphs(count: usize, words: usize) -> (r: String)
    ensures
        r@ == filler(count as nat, words as nat),
{
    let mut out: Vec<char> = Vec::new();
    let mut p: usize = 0;
    while p < count
        invariant
            p <= count,
            out@ == filler(p as nat, words as nat),
        decreases count - p,
    {
        crate::text::push_str(&mut out, "<p>");
        let ghost head = out@;
        let mut w: usize = 0;
        while w < words
            invariant
                w <= words,
                p < count,
                out@ == head + filler_words(p as nat, w as nat),
            decreases words - w,
        {
            let ghost before = out@;
            if w > 0 {
                out.push(' ');
            }
            out.push('p');
            crate::text::push_decimal(&mut out, p as u64);
            out.push('w');
            crate::text::push_decimal(&mut out, w as u64);
            proof {
                if w == 0 {
                    assert(out@ =~= head + filler_word(p as nat, 0));
                } else {
                    assert(out@ =~= before + seq![' '] + filler_word(p as nat, w as nat));
                }
            }
            w += 1;
        }
        crate::text::push_str(&mut out, "</p>");
        p += 1;
    }
    string_of(&out)
}

} // verus!
