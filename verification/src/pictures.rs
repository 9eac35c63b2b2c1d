//! Pictures decoded and laid out: the canvas a picture is drawn on, its
//! rows of colored half-blocks, the kitty graphics commands that send and
//! place it, and the lines a picture takes in a chapter.

use vstd::prelude::*;
use crate::i18n::{tr, translation, Language, Text};
use crate::images::{base64, base64_of, fields, fit, fitted, marker_row, parse_row, picture_id, picture_key, Kitty, Layout, Mode, MARKER, SEPARATOR};
use crate::text::{all_digits, find_str, lemma_decimal_digits, lemma_find_str, lemma_parse_decimal, occurs_at};
use crate::text::{decimal, push_decimal, push_str, string_of};

verus! {

/// A picture as RGBA pixels, row by row, four bytes each.
#[derive(Debug)]
pub struct Picture {
    pub width: u32,
    pub height: u32,
    pub pixels: Vec<u8>,
}

pub struct PictureView {
    pub width: u32,
    pub height: u32,
    pub pixels: Seq<u8>,
}

impl View for Picture {
    type V = PictureView;

    open spec fn view(&self) -> PictureView {
        PictureView { width: self.width, height: self.height, pixels: self.pixels@ }
    }
}

pub open spec fn opt_picture(p: Option<Picture>) -> Option<PictureView> {
    match p {
        Some(p) => Some(p@),
        None => None,
    }
}

/// Whether a picture holds four bytes for each of its pixels.
pub open spec fn complete(p: PictureView) -> bool {
    p.pixels.len() == 4 * p.width * p.height
}

/// Where pixel (`x`, `y`) starts in a picture `width` pixels wide.
pub open spec fn at(width: int, x: int, y: int) -> int {
    4 * (y * width + x)
}

proof fn lemma_at(width: int, height: int, x: int, y: int)
    requires
        0 <= x < width,
        0 <= y < height,
    ensures
        0 <= at(width, x, y),
        at(width, x, y) + 4 <= 4 * width * height,
{
    assert(y * width + x < width * height) by (nonlinear_arith)
        requires
            0 <= x < width,
            0 <= y < height,
    ;
    assert(0 <= y * width) by (nonlinear_arith)
        requires
            0 <= y,
            0 < width,
    ;
    assert(4 * (width * height) == 4 * width * height) by (nonlinear_arith);
}

/// Where pixel (`x`, `y`) starts in a complete picture's bytes.
fn pixel_index(width: u32, height: u32, x: u32, y: u32, len: usize) -> (k: usize)
    requires
        x < width,
        y < height,
        len == 4 * width * height,
    ensures
        k == at(width as int, x as int, y as int),
        k + 4 <= len,
{
    proof {
        lemma_at(width as int, height as int, x as int, y as int);
    }
    assert((y as int) * (width as int) < 0x1_0000_0000_0000_0000) by (nonlinear_arith)
        requires
            y < 0x1_0000_0000,
            width < 0x1_0000_0000,
    ;
    let a: u64 = y as u64 * width as u64;
    let b: u64 = a + x as u64;
    (4 * b) as usize
}

// ------------------------------------------------------------ decoding

/// The size the image crate reads from a picture's header
/// (`ImageReader::with_guessed_format`, `into_dimensions`).
pub uninterp spec fn image_dimensions(bytes: Seq<u8>) -> Option<(u32, u32)>;

/// A picture decoded by `image::load_from_memory`, as RGBA (`to_rgba8`).
pub uninterp spec fn decoded_picture(bytes: Seq<u8>) -> Option<PictureView>;

/// A picture decoded by `image::load_from_memory`, shrunk by `thumbnail`
/// to fit `width` × `height`, as RGBA.
pub uninterp spec fn thumbnail_picture(bytes: Seq<u8>, width: u32, height: u32) -> Option<PictureView>;

/// What a zip archive holds under `name` (`ZipArchive::by_name`, `read_to_end`).
pub uninterp spec fn zip_entry(archive: Seq<u8>, name: Seq<char>) -> Option<Seq<u8>>;

pub open spec fn opt_bytes(v: Option<Vec<u8>>) -> Option<Seq<u8>> {
    match v {
        Some(b) => Some(b@),
        None => None,
    }
}

/// The bytes of an entry of the archive, read with `zip`'s
/// `ZipArchive::new`, `by_name` and `read_to_end`; none when any of them
/// fails.
#[verifier::external_body]
fn read_zip_bytes(archive: &[u8], name: &str) -> (r: Option<Vec<u8>>)
    ensures
        opt_bytes(r) == zip_entry(archive@, name@),
{
    let mut zip = zip::ZipArchive::new(std::io::Cursor::new(archive)).ok()?;
    let mut file = zip.by_name(name).ok()?;
    let mut bytes = Vec::new();
    std::io::Read::read_to_end(&mut file, &mut bytes).ok()?;
    Some(bytes)
}

/// A picture's size from its header, without decoding it (`image`'s
/// `ImageReader::with_guessed_format`, `into_dimensions`); the contract
/// names the size `image_dimensions` of the bytes.
#[verifier::external_body]
fn dimensions(bytes: &[u8]) -> (r: Option<(u32, u32)>)
    ensures
        r == image_dimensions(bytes@),
{
    image::ImageReader::new(std::io::Cursor::new(bytes)).with_guessed_format().ok()?.into_dimensions().ok()
}

/// Decodes a picture to RGBA pixels (`image::load_from_memory`, `to_rgba8`);
/// the contract names the picture `decoded_picture` of the bytes, and does
/// not claim its pixels are complete (its callers check).
#[verifier::external_body]
fn decode(bytes: &[u8]) -> (r: Option<Picture>)
    ensures
        opt_picture(r) == decoded_picture(bytes@),
{
    let rgba = image::load_from_memory(bytes).ok()?.to_rgba8();
    Some(Picture { width: rgba.width(), height: rgba.height(), pixels: rgba.into_raw() })
}

/// Decodes a picture and shrinks it to fit `width` × `height`, keeping its
/// shape, with `DynamicImage::thumbnail`'s integer box filter; the contract
/// names the result `thumbnail_picture` of the bytes and the size.
#[verifier::external_body]
fn thumbnail(bytes: &[u8], width: u32, height: u32) -> (r: Option<Picture>)
    ensures
        opt_picture(r) == thumbnail_picture(bytes@, width, height),
{
    let rgba = image::load_from_memory(bytes).ok()?.thumbnail(width, height).to_rgba8();
    Some(Picture { width: rgba.width(), height: rgba.height(), pixels: rgba.into_raw() })
}

// ------------------------------------------------------------ the canvas

/// The four bytes of pixel (`bx`, `by`) of a canvas with `top` pasted at
/// (`x0`, `y0`): the picture's pixel where it covers, transparent elsewhere.
pub open spec fn canvas_pixel(top: PictureView, x0: int, y0: int, bx: int, by: int) -> Seq<u8> {
    if x0 <= bx < x0 + top.width && y0 <= by < y0 + top.height {
        top.pixels.subrange(at(top.width as int, bx - x0, by - y0), at(top.width as int, bx - x0, by - y0) + 4)
    } else {
        seq![0u8, 0u8, 0u8, 0u8]
    }
}

/// The first `n` pixels of the canvas's row `by`.
pub open spec fn canvas_row(top: PictureView, x0: int, y0: int, by: int, n: nat) -> Seq<u8>
    decreases n,
{
    if n == 0 {
        Seq::empty()
    } else {
        canvas_row(top, x0, y0, by, (n - 1) as nat) + canvas_pixel(top, x0, y0, n - 1, by)
    }
}

/// The first `m` rows of a canvas `width` pixels wide.
pub open spec fn canvas_rows(top: PictureView, width: nat, x0: int, y0: int, m: nat) -> Seq<u8>
    decreases m,
{
    if m == 0 {
        Seq::empty()
    } else {
        canvas_rows(top, width, x0, y0, (m - 1) as nat) + canvas_row(top, x0, y0, m - 1, width)
    }
}

/// A transparent `width` × `height` canvas with `top` centered on it
/// (`RgbaImage::new` and `imageops::replace` at the centering offsets).
pub open spec fn centered_on(top: PictureView, width: u32, height: u32) -> PictureView {
    let x0 = if width > top.width { (width - top.width) / 2 } else { 0 };
    let y0 = if height > top.height { (height - top.height) / 2 } else { 0 };
    PictureView { width, height, pixels: canvas_rows(top, width as nat, x0, y0, height as nat) }
}

/// The picture centered on a transparent `width` × `height` canvas, shrunk
/// first if it doesn't fit; pictures are never enlarged. None when the
/// picture cannot be decoded, or the canvas would not fit in memory.
pub open spec fn canvas_of(bytes: Seq<u8>, width: u32, height: u32) -> Option<PictureView> {
    match decoded_picture(bytes) {
        Some(p) => {
            let fitted = if p.width > width || p.height > height { thumbnail_picture(bytes, width, height) } else { Some(p) };
            match fitted {
                Some(f) => if complete(f) && 4 * width * height <= usize::MAX && complete(p) {
                    Some(centered_on(f, width, height))
                } else {
                    None
                },
                None => None,
            }
        },
        None => None,
    }
}

proof fn lemma_canvas_row_len(top: PictureView, x0: int, y0: int, by: int, n: nat)
    requires
        complete(top),
    ensures
        canvas_row(top, x0, y0, by, n).len() == 4 * n,
    decreases n,
{
    if n > 0 {
        lemma_canvas_row_len(top, x0, y0, by, (n - 1) as nat);
        let bx = n - 1;
        if x0 <= bx < x0 + top.width && y0 <= by < y0 + top.height {
            lemma_at(top.width as int, top.height as int, bx - x0, by - y0);
        }
    }
}

proof fn lemma_canvas_rows_len(top: PictureView, width: nat, x0: int, y0: int, m: nat)
    requires
        complete(top),
    ensures
        canvas_rows(top, width, x0, y0, m).len() == 4 * width * m,
    decreases m,
{
    if m > 0 {
        lemma_canvas_rows_len(top, width, x0, y0, (m - 1) as nat);
        lemma_canvas_row_len(top, x0, y0, m - 1, width);
        assert(4 * width * (m - 1) + 4 * width == 4 * width * m) by (nonlinear_arith);
    } else {
        assert(4 * width * m == 0) by (nonlinear_arith)
            requires
                m == 0,
        ;
    }
}

fn paste_row(out: &mut Vec<u8>, top: &Picture, x0: u32, y0: u32, by: u32, width: u32)
    requires
        complete(top@),
    ensures
        final(out)@ == old(out)@ + canvas_row(top@, x0 as int, y0 as int, by as int, width as nat),
{
    let ghost start = out@;
    let mut bx: u32 = 0;
    while bx < width
        invariant
            bx <= width,
            complete(top@),
            out@ == start + canvas_row(top@, x0 as int, y0 as int, by as int, bx as nat),
        decreases width - bx,
    {
        let ghost before = out@;
        if x0 <= bx && (bx - x0) < top.width && y0 <= by && (by - y0) < top.height {
            let k = pixel_index(top.width, top.height, bx - x0, by - y0, top.pixels.len());
            out.push(top.pixels[k]);
            out.push(top.pixels[k + 1]);
            out.push(top.pixels[k + 2]);
            out.push(top.pixels[k + 3]);
            assert(out@ =~= before + top@.pixels.subrange(k as int, k + 4));
        } else {
            out.push(0);
            out.push(0);
            out.push(0);
            out.push(0);
            assert(out@ =~= before + seq![0u8, 0u8, 0u8, 0u8]);
        }
        bx += 1;
        assert(out@ =~= start + canvas_row(top@, x0 as int, y0 as int, by as int, bx as nat));
    }
}

/// `top` centered on a transparent `width` × `height` canvas.
pub fn center_on(top: &Picture, width: u32, height: u32) -> (r: Picture)
    requires
        complete(top@),
    ensures
        r@ == centered_on(top@, width, height),
{
    let x0 = width.saturating_sub(top.width) / 2;
    let y0 = height.saturating_sub(top.height) / 2;
    let mut pixels: Vec<u8> = Vec::new();
    let mut by: u32 = 0;
    while by < height
        invariant
            by <= height,
            complete(top@),
            pixels@ == canvas_rows(top@, width as nat, x0 as int, y0 as int, by as nat),
        decreases height - by,
    {
        paste_row(&mut pixels, top, x0, y0, by, width);
        by += 1;
    }
    Picture { width, height, pixels }
}

fn is_complete(p: &Picture) -> (r: bool)
    ensures
        r == complete(p@),
{
    assert(4 * (p.width as int) * (p.height as int) < 0x1_0000_0000_0000_0000_0000) by (nonlinear_arith)
        requires
            p.width < 0x1_0000_0000,
            p.height < 0x1_0000_0000,
    ;
    p.pixels.len() as u128 == 4 * (p.width as u128) * (p.height as u128)
}

/// The picture in `bytes` centered on a transparent `width` × `height`
/// canvas (see `canvas_of`).
pub fn canvas(bytes: &[u8], width: u32, height: u32) -> (r: Option<Picture>)
    ensures
        opt_picture(r) == canvas_of(bytes@, width, height),
        r matches Some(c) ==> complete(c@),
{
    let p = decode(bytes)?;
    if !is_complete(&p) {
        return None;
    }
    let fitted = if p.width > width || p.height > height {
        thumbnail(bytes, width, height)?
    } else {
        p
    };
    assert(4 * (width as int) * (height as int) < 0x1_0000_0000_0000_0000_0000) by (nonlinear_arith)
        requires
            width < 0x1_0000_0000,
            height < 0x1_0000_0000,
    ;
    if !is_complete(&fitted) || 4 * (width as u128) * (height as u128) > usize::MAX as u128 {
        return None;
    }
    let c = center_on(&fitted, width, height);
    proof {
        let x0 = if width > fitted.width { (width - fitted.width) / 2 } else { 0 };
        let y0 = if height > fitted.height { (height - fitted.height) / 2 } else { 0 };
        lemma_canvas_rows_len(fitted@, width as nat, x0 as int, y0 as int, height as nat);
        assert(4 * (width as nat) * (height as nat) == 4 * width * height);
    }
    Some(c)
}

// ------------------------------------------------------------ half-blocks

/// One channel of a pixel blended over the background by its alpha.
pub open spec fn blend_channel(value: u8, alpha: u8, background: u8) -> u8 {
    ((value as int * alpha + background as int * (255 - alpha)) / 255) as u8
}

/// The color pixel (`x`, `y`) of a canvas shows over the background.
pub open spec fn blended(c: PictureView, background: (u8, u8, u8), x: int, y: int) -> (u8, u8, u8) {
    let k = at(c.width as int, x, y);
    (
        blend_channel(c.pixels[k], c.pixels[k + 3], background.0),
        blend_channel(c.pixels[k + 1], c.pixels[k + 3], background.1),
        blend_channel(c.pixels[k + 2], c.pixels[k + 3], background.2),
    )
}

/// The escape sequences that set the top pixel's color as foreground and
/// the bottom one's as background.
pub open spec fn colors_code(top: (u8, u8, u8), bottom: (u8, u8, u8)) -> Seq<char> {
    "\x1b[38;2;"@ + decimal(top.0 as nat) + seq![';'] + decimal(top.1 as nat) + seq![';'] + decimal(top.2 as nat) + "m\x1b[48;2;"@
        + decimal(bottom.0 as nat) + seq![';'] + decimal(bottom.1 as nat) + seq![';'] + decimal(bottom.2 as nat) + seq!['m']
}

/// The first `n` cells of the half-block line for rows `2 * row` and
/// `2 * row + 1`, with the colors last set; colors are set again only
/// where they change.
pub open spec fn block_cells(c: PictureView, background: (u8, u8, u8), row: int, n: nat) -> (Seq<char>, Option<((u8, u8, u8), (u8, u8, u8))>)
    decreases n,
{
    if n == 0 {
        (Seq::empty(), None)
    } else {
        let (text, last) = block_cells(c, background, row, (n - 1) as nat);
        let colors = (blended(c, background, n - 1, 2 * row), blended(c, background, n - 1, 2 * row + 1));
        if last == Some(colors) {
            (text.push('▀'), last)
        } else {
            (text + colors_code(colors.0, colors.1) + seq!['▀'], Some(colors))
        }
    }
}

/// The line of half-blocks for pixel rows `2 * row` and `2 * row + 1`,
/// after `col` spaces, the default colors restored at its end.
pub open spec fn block_line(c: PictureView, col: nat, background: (u8, u8, u8), row: int) -> Seq<char> {
    Seq::new(col, |i: int| ' ') + block_cells(c, background, row, c.width as nat).0 + "\x1b[39;49m"@
}

fn blend_of(value: u8, alpha: u8, background: u8) -> (r: u8)
    ensures
        r == blend_channel(value, alpha, background),
{
    let v = value as u32;
    let a = alpha as u32;
    let b = background as u32;
    assert(v * a + b * (255 - a) <= 65025) by (nonlinear_arith)
        requires
            v <= 255,
            a <= 255,
            b <= 255,
    ;
    ((v * a + b * (255 - a)) / 255) as u8
}

fn pixel_color(c: &Picture, background: (u8, u8, u8), x: u32, y: u32) -> (r: (u8, u8, u8))
    requires
        complete(c@),
        x < c.width,
        y < c.height,
    ensures
        r == blended(c@, background, x as int, y as int),
{
    let k = pixel_index(c.width, c.height, x, y, c.pixels.len());
    let alpha = c.pixels[k + 3];
    (
        blend_of(c.pixels[k], alpha, background.0),
        blend_of(c.pixels[k + 1], alpha, background.1),
        blend_of(c.pixels[k + 2], alpha, background.2),
    )
}

fn push_colors(out: &mut Vec<char>, top: (u8, u8, u8), bottom: (u8, u8, u8))
    ensures
        final(out)@ == old(out)@ + colors_code(top, bottom),
{
    let ghost start = out@;
    push_str(out, "\x1b[38;2;");
    push_decimal(out, top.0 as u64);
    out.push(';');
    push_decimal(out, top.1 as u64);
    out.push(';');
    push_decimal(out, top.2 as u64);
    push_str(out, "m\x1b[48;2;");
    push_decimal(out, bottom.0 as u64);
    out.push(';');
    push_decimal(out, bottom.1 as u64);
    out.push(';');
    push_decimal(out, bottom.2 as u64);
    out.push('m');
    assert(out@ =~= start + colors_code(top, bottom));
}

/// Text lines drawing a picture with "▀": the foreground paints the top pixel
/// and the background the bottom one; transparent pixels take `background`.
pub fn block_lines(canvas: &Picture, col: usize, background: (u8, u8, u8)) -> (r: Vec<String>)
    requires
        complete(canvas@),
    ensures
        r@.len() == canvas.height / 2,
        forall|i: int| 0 <= i < r@.len() ==> #[trigger] r@[i]@ == block_line(canvas@, col as nat, background, i),
{
    let mut lines: Vec<String> = Vec::new();
    let mut row: u32 = 0;
    while row < canvas.height / 2
        invariant
            row <= canvas.height / 2,
            complete(canvas@),
            lines@.len() == row,
            forall|i: int| 0 <= i < row ==> #[trigger] lines@[i]@ == block_line(canvas@, col as nat, background, i),
        decreases canvas.height / 2 - row,
    {
        let mut line: Vec<char> = Vec::new();
        let mut k: usize = 0;
        while k < col
            invariant
                k <= col,
                line@ == Seq::new(k as nat, |i: int| ' '),
            decreases col - k,
        {
            line.push(' ');
            k += 1;
            assert(line@ =~= Seq::new(k as nat, |i: int| ' '));
        }
        let ghost head = line@;
        let mut last: Option<((u8, u8, u8), (u8, u8, u8))> = None;
        let mut x: u32 = 0;
        while x < canvas.width
            invariant
                x <= canvas.width,
                row < canvas.height / 2,
                complete(canvas@),
                (line@, last) == (head + block_cells(canvas@, background, row as int, x as nat).0, block_cells(canvas@, background, row as int, x as nat).1),
            decreases canvas.width - x,
        {
            let top = pixel_color(canvas, background, x, 2 * row);
            let bottom = pixel_color(canvas, background, x, 2 * row + 1);
            let same = match last {
                Some((t, b)) => t.0 == top.0 && t.1 == top.1 && t.2 == top.2 && b.0 == bottom.0 && b.1 == bottom.1 && b.2 == bottom.2,
                None => false,
            };
            let ghost before = line@;
            if !same {
                push_colors(&mut line, top, bottom);
                last = Some((top, bottom));
            }
            line.push('▀');
            x += 1;
            assert(line@ =~= head + block_cells(canvas@, background, row as int, x as nat).0);
        }
        push_str(&mut line, "\x1b[39;49m");
        assert(line@ =~= block_line(canvas@, col as nat, background, row as int));
        lines.push(string_of(&line));
        row += 1;
    }
    lines
}

// ------------------------------------------------------------ kitty

/// The chunks the pixels are sent in: 3072 bytes each, which encode to
/// 4096 base64 characters, the largest payload the protocol allows.
pub open spec fn chunk_count(len: int) -> int {
    (len + 3071) / 3072
}

/// Chunk `n` of the pixels.
pub open spec fn chunk(pixels: Seq<u8>, n: int) -> Seq<u8> {
    pixels.subrange(3072 * n, if 3072 * (n + 1) < pixels.len() { 3072 * (n + 1) } else { pixels.len() as int })
}

/// The command carrying chunk `n`: the first one says what the picture is
/// and its id; `m=1` while more chunks follow.
pub open spec fn chunk_command(p: PictureView, id: u32, n: int) -> Seq<char> {
    let more: nat = if n + 1 < chunk_count(p.pixels.len() as int) { 1 } else { 0 };
    (if n == 0 {
        "\x1b_Ga=t,f=32,s="@ + decimal(p.width as nat) + ",v="@ + decimal(p.height as nat) + ",i="@ + decimal(id as nat) + ",q=2,m="@ + decimal(more) + seq![';']
    } else {
        "\x1b_Gm="@ + decimal(more) + seq![';']
    }) + base64_of(chunk(p.pixels, n)) + "\x1b\\"@
}

/// The first `n` commands.
pub open spec fn chunk_commands(p: PictureView, id: u32, n: nat) -> Seq<char>
    decreases n,
{
    if n == 0 {
        Seq::empty()
    } else {
        chunk_commands(p, id, (n - 1) as nat) + chunk_command(p, id, n - 1)
    }
}

/// What sends a picture's RGBA pixels to the terminal under `id`, in the
/// protocol's chunks.
pub open spec fn transmission_of(p: PictureView, id: u32) -> Seq<char> {
    chunk_commands(p, id, chunk_count(p.pixels.len() as int) as nat)
}

/// Sends RGBA pixels in the protocol's chunks (see `transmission_of`).
pub fn transmit(id: u32, canvas: &Picture) -> (r: String)
    ensures
        r@ == transmission_of(canvas@, id),
{
    let len = canvas.pixels.len();
    let count = len / 3072 + if len % 3072 > 0 { 1 } else { 0 };
    assert(count == chunk_count(len as int));
    let mut out: Vec<char> = Vec::new();
    let mut n: usize = 0;
    while n < count
        invariant
            n <= count,
            count == chunk_count(len as int),
            len == canvas.pixels@.len(),
            out@ == chunk_commands(canvas@, id, n as nat),
        decreases count - n,
    {
        let more: u64 = if n + 1 < count { 1 } else { 0 };
        let ghost before = out@;
        if n == 0 {
            push_str(&mut out, "\x1b_Ga=t,f=32,s=");
            push_decimal(&mut out, canvas.width as u64);
            push_str(&mut out, ",v=");
            push_decimal(&mut out, canvas.height as u64);
            push_str(&mut out, ",i=");
            push_decimal(&mut out, id as u64);
            push_str(&mut out, ",q=2,m=");
            push_decimal(&mut out, more);
            out.push(';');
        } else {
            push_str(&mut out, "\x1b_Gm=");
            push_decimal(&mut out, more);
            out.push(';');
        }
        assert(n < count ==> 3072 * n < len) by (nonlinear_arith)
            requires
                count == (len + 3071) / 3072,
                n < count,
        ;
        let start = 3072 * n;
        let stop = if len - start > 3072 { start + 3072 } else { len };
        let piece = crate::text::slice_bytes(&canvas.pixels, start, stop);
        let encoded = base64(piece.as_slice());
        push_str(&mut out, encoded.as_str());
        push_str(&mut out, "\x1b\\");
        assert(out@ =~= before + chunk_command(canvas@, id, n as int));
        n += 1;
    }
    string_of(&out)
}

// ------------------------------------------------------------ layout

/// The label a picture gets when it can't be shown: "[Image]" dimmed,
/// after `indent` spaces.
pub open spec fn label_line(indent: nat, ui: Language) -> Seq<char> {
    Seq::new(indent, |i: int| ' ') + "\x1b[2m"@ + seq!['['] + translation(ui, Text::Image) + seq![']'] + "\x1b[22m"@
}

/// The line that reserves row `row` of a picture for the terminal to draw:
/// the marker, the row, the picture's rows, its column and columns, and its
/// path, separated by the separator.
pub open spec fn marker_line(row: nat, rows: nat, col: nat, cols: nat, path: Seq<char>) -> Seq<char> {
    seq![MARKER] + decimal(row) + seq![SEPARATOR] + decimal(rows) + seq![SEPARATOR] + decimal(col)
        + seq![SEPARATOR] + decimal(cols) + seq![SEPARATOR] + path
}

/// A run of digits ends at the first separator after it.
proof fn lemma_number_field(num: Seq<char>, rest: Seq<char>)
    requires
        all_digits(num),
    ensures
        find_str(num + seq![SEPARATOR] + rest, seq![SEPARATOR]) == Some(num.len() as int),
{
    let s = num + seq![SEPARATOR] + rest;
    let n = num.len() as int;
    lemma_find_str(s, seq![SEPARATOR]);
    assert(s.subrange(n, n + 1) =~= seq![SEPARATOR]);
    assert(occurs_at(s, seq![SEPARATOR], n));
    match find_str(s, seq![SEPARATOR]) {
        Some(i) => {
            if i < n {
                assert(s.subrange(i, i + 1)[0] == s[i]);
                assert(s[i] == num[i]);
                assert(crate::text::is_digit(num[i]));
            }
        },
        None => {},
    }
}

/// One number field and what follows it.
proof fn lemma_fields_step(n: nat, rest: Seq<char>, k: nat)
    requires
        k > 0,
    ensures
        fields(decimal(n) + seq![SEPARATOR] + rest, k) == match fields(rest, (k - 1) as nat) {
            Some((fs, tail)) => Some((seq![decimal(n)] + fs, tail)),
            None => None,
        },
{
    lemma_decimal_digits(n);
    let s = decimal(n) + seq![SEPARATOR] + rest;
    lemma_number_field(decimal(n), rest);
    let i = decimal(n).len() as int;
    assert(s.take(i) =~= decimal(n));
    assert(s.skip(i + 1) =~= rest);
}

/// Reading a picture's row back from the line that reserves it gives back
/// what was written.
pub proof fn law_marker_rows_round_trip(row: nat, rows: nat, col: nat, cols: nat, path: Seq<char>)
    requires
        row <= usize::MAX,
        rows <= usize::MAX,
        col <= usize::MAX,
        cols <= usize::MAX,
    ensures
        marker_row(marker_line(row, rows, col, cols, path)) == Some((row, rows, col, cols, path)),
{
    let sep = seq![SEPARATOR];
    let t3 = decimal(cols) + sep + path;
    let t2 = decimal(col) + sep + t3;
    let t1 = decimal(rows) + sep + t2;
    let t0 = decimal(row) + sep + t1;
    let line = marker_line(row, rows, col, cols, path);
    assert(line =~= seq![MARKER] + t0);
    assert(line.drop_first() =~= t0);
    assert(fields(path, 0) == Some((Seq::<Seq<char>>::empty(), path)));
    lemma_fields_step(cols, path, 1);
    lemma_fields_step(col, t3, 2);
    lemma_fields_step(rows, t2, 3);
    lemma_fields_step(row, t1, 4);
    let fs = seq![decimal(row)] + (seq![decimal(rows)] + (seq![decimal(col)] + (seq![decimal(cols)] + Seq::<Seq<char>>::empty())));
    assert(fields(t0, 4) == Some((fs, path)));
    assert(fs[0] == decimal(row));
    assert(fs[1] == decimal(rows));
    assert(fs[2] == decimal(col));
    assert(fs[3] == decimal(cols));
    lemma_parse_decimal(row, usize::MAX as nat);
    lemma_parse_decimal(rows, usize::MAX as nat);
    lemma_parse_decimal(col, usize::MAX as nat);
    lemma_parse_decimal(cols, usize::MAX as nat);
}

/// `a * b` as `u32` arithmetic wraps it.
pub open spec fn wrapping_mul(a: u32, b: u32) -> u32 {
    ((a as int * b as int) % 0x1_0000_0000) as u32
}

/// The lines a picture takes: rows reserved for the terminal to draw into,
/// rows of half-blocks, or a label when the picture can't be shown.
pub open spec fn picture_lines_of(archive: Seq<u8>, path: Seq<char>, wrap_width: usize, indent: usize, layout: Layout, ui: Language) -> Seq<Seq<char>> {
    let label = seq![label_line(indent as nat, ui)];
    if layout.mode == Mode::Labels {
        label
    } else {
        match zip_entry(archive, path) {
            None => label,
            Some(bytes) => match image_dimensions(bytes) {
                None => label,
                Some((w, h)) => {
                    let size = fitted(w as int, h as int, wrap_width as int, layout.max_rows as int, layout.cell.0 as int, layout.cell.1 as int);
                    let col = indent + (if wrap_width > size.0 { wrap_width - size.0 } else { 0 }) / 2;
                    if layout.mode == Mode::Kitty {
                        Seq::new(size.1 as nat, |row: int| marker_line(row as nat, size.1 as nat, col as nat, size.0 as nat, path))
                    } else {
                        match canvas_of(bytes, size.0 as u32, wrapping_mul(size.1 as u32, 2)) {
                            Some(c) => Seq::new((c.height / 2) as nat, |i: int| block_line(c, col as nat, layout.background, i)),
                            None => label,
                        }
                    }
                },
            },
        }
    }
}

fn label(indent: usize, ui: Language) -> (r: Vec<String>)
    ensures
        r@.len() == 1,
        r@[0]@ == label_line(indent as nat, ui),
{
    let mut l: Vec<char> = Vec::new();
    let mut k: usize = 0;
    while k < indent
        invariant
            k <= indent,
            l@ == Seq::new(k as nat, |i: int| ' '),
        decreases indent - k,
    {
        l.push(' ');
        k += 1;
        assert(l@ =~= Seq::new(k as nat, |i: int| ' '));
    }
    push_str(&mut l, "\x1b[2m");
    l.push('[');
    push_str(&mut l, tr(ui, Text::Image));
    l.push(']');
    push_str(&mut l, "\x1b[22m");
    assert(l@ =~= label_line(indent as nat, ui));
    let mut r: Vec<String> = Vec::new();
    r.push(string_of(&l));
    r
}

pub open spec fn strings_of(v: Seq<String>) -> Seq<Seq<char>> {
    v.map_values(|s: String| s@)
}

/// The lines one picture takes (see `picture_lines_of`); `ui` is the
/// interface language the label is written in.
pub fn picture_lines(archive: &[u8], path: &str, wrap_width: usize, indent: usize, layout: &Layout, ui: Language) -> (r: Vec<String>)
    requires
        indent + wrap_width <= usize::MAX,
    ensures
        strings_of(r@) == picture_lines_of(archive@, path@, wrap_width, indent, *layout, ui),
{
    let fallback = label(indent, ui);
    assert(strings_of(fallback@) =~= seq![label_line(indent as nat, ui)]);
    if layout.mode == Mode::Labels {
        return fallback;
    }
    let bytes = match read_zip_bytes(archive, path) {
        Some(b) => b,
        None => return fallback,
    };
    let (width, height) = match dimensions(bytes.as_slice()) {
        Some(d) => d,
        None => return fallback,
    };
    let (cols, rows) = fit(width, height, wrap_width, layout);
    let col = indent + wrap_width.saturating_sub(cols) / 2;
    if layout.mode == Mode::Kitty {
        let mut out: Vec<String> = Vec::new();
        let mut row: usize = 0;
        while row < rows
            invariant
                row <= rows,
                strings_of(out@) == Seq::new(row as nat, |k: int| marker_line(k as nat, rows as nat, col as nat, cols as nat, path@)),
            decreases rows - row,
        {
            let mut l: Vec<char> = Vec::new();
            l.push(MARKER);
            push_decimal(&mut l, row as u64);
            l.push(SEPARATOR);
            push_decimal(&mut l, rows as u64);
            l.push(SEPARATOR);
            push_decimal(&mut l, col as u64);
            l.push(SEPARATOR);
            push_decimal(&mut l, cols as u64);
            l.push(SEPARATOR);
            push_str(&mut l, path);
            assert(l@ =~= marker_line(row as nat, rows as nat, col as nat, cols as nat, path@));
            let ghost before = strings_of(out@);
            out.push(string_of(&l));
            assert(strings_of(out@) =~= before.push(l@));
            assert(Seq::new((row + 1) as nat, |k: int| marker_line(k as nat, rows as nat, col as nat, cols as nat, path@))
                =~= Seq::new(row as nat, |k: int| marker_line(k as nat, rows as nat, col as nat, cols as nat, path@)).push(l@));
            row += 1;
        }
        out
    } else {
        #[verifier::truncate]
        let canvas_rows = ((rows as u32 as u64 * 2) % 0x1_0000_0000) as u32;
        #[verifier::truncate]
        let canvas_cols = cols as u32;
        match canvas(bytes.as_slice(), canvas_cols, canvas_rows) {
            Some(c) => {
                let lines = block_lines(&c, col, layout.background);
                assert(strings_of(lines@) =~= Seq::new((c.height / 2) as nat, |i: int| block_line(c@, col as nat, layout.background, i)));
                lines
            },
            None => fallback,
        }
    }
}

/// What `Kitty::draw` sends: the placements that go into the frame, the
/// pixels of pictures new to the terminal, and the ids sent so far.
pub struct Drawn {
    pub frame: Seq<char>,
    pub terminal: Seq<char>,
    pub sent: Set<u32>,
}

/// The command that shows rows `row ..` of a picture, `visible` of them,
/// from the screen line `line` at column `col`.
pub open spec fn placement(line: nat, col: nat, id: u32, y: u32, width: u32, height: u32, cols: nat, visible: nat) -> Seq<char> {
    seq!['\x1b', '['] + decimal(line) + seq![';'] + decimal(col) + seq!['H'] + "\x1b_Ga=p,i="@ + decimal(id as nat) + ",x=0,y="@
        + decimal(y as nat) + ",w="@ + decimal(width as nat) + ",h="@ + decimal(height as nat) + ",c="@ + decimal(cols)
        + ",r="@ + decimal(visible) + ",C=1,q=2\x1b\\"@
}

/// The rows of picture the line `i` starts, and the line after them: each
/// picture shows only its rows on the page, and is sent once.
pub open spec fn draw_step(
    lines: Seq<Seq<char>>,
    i: int,
    end: int,
    offset: int,
    layout: Layout,
    archive: Seq<u8>,
    d: Drawn,
) -> (int, Drawn) {
    match marker_row(lines[i]) {
        None => (i + 1, d),
        Some((row, rows, col, cols, path)) => if row >= rows || col + 1 > usize::MAX {
            (i + 1, d)
        } else {
            let visible = if rows - row < end - i { (rows - row) as nat } else { (end - i) as nat };
            let width = wrapping_mul(cols as u32, layout.cell.0);
            let height = wrapping_mul(rows as u32, layout.cell.1);
            let id = picture_key(crate::text::utf8(path), width, height);
            let place = placement((i - offset + 1) as nat, (col + 1) as nat, id, wrapping_mul(row as u32, layout.cell.1), width, wrapping_mul(visible as u32, layout.cell.1), cols, visible);
            if d.sent.contains(id) {
                (i + visible, Drawn { frame: d.frame + place, ..d })
            } else {
                match picture_canvas(archive, path, width, height) {
                    Some(c) => (
                        i + visible,
                        Drawn { frame: d.frame + place, terminal: d.terminal + transmission_of(c, id), sent: d.sent.insert(id) },
                    ),
                    None => (i + visible, d),
                }
            }
        },
    }
}

/// Drawing from line `i` to `end`.
pub open spec fn draw_from(
    lines: Seq<Seq<char>>,
    i: int,
    end: int,
    offset: int,
    layout: Layout,
    archive: Seq<u8>,
    d: Drawn,
) -> Drawn
    decreases end - i,
{
    if i >= end || i < 0 || i >= lines.len() {
        d
    } else {
        let (next, d2) = draw_step(lines, i, end, offset, layout, archive, d);
        if next <= i {
            d2
        } else {
            draw_from(lines, next, end, offset, layout, archive, d2)
        }
    }
}

/// Drawing only ever adds: pictures the terminal holds stay held, and what
/// goes to the frame and to the terminal only grows.
pub proof fn law_draw_only_adds(
    lines: Seq<Seq<char>>,
    i: int,
    end: int,
    offset: int,
    layout: Layout,
    archive: Seq<u8>,
    d: Drawn,
)
    ensures
        d.sent.subset_of(draw_from(lines, i, end, offset, layout, archive, d).sent),
        d.frame.is_prefix_of(draw_from(lines, i, end, offset, layout, archive, d).frame),
        d.terminal.is_prefix_of(draw_from(lines, i, end, offset, layout, archive, d).terminal),
    decreases end - i,
{
    if !(i >= end || i < 0 || i >= lines.len()) {
        let (next, d2) = draw_step(lines, i, end, offset, layout, archive, d);
        assert(d.sent.subset_of(d2.sent));
        assert(d.frame.is_prefix_of(d2.frame)) by {
            assert(d2.frame.take(d.frame.len() as int) =~= d.frame);
        }
        assert(d.terminal.is_prefix_of(d2.terminal)) by {
            assert(d2.terminal.take(d.terminal.len() as int) =~= d.terminal);
        }
        if next > i {
            law_draw_only_adds(lines, next, end, offset, layout, archive, d2);
            let r = draw_from(lines, next, end, offset, layout, archive, d2);
            assert(d.frame.is_prefix_of(r.frame)) by {
                assert(r.frame.take(d2.frame.len() as int) =~= d2.frame);
                assert(r.frame.take(d.frame.len() as int) =~= d.frame);
            }
            assert(d.terminal.is_prefix_of(r.terminal)) by {
                assert(r.terminal.take(d2.terminal.len() as int) =~= d2.terminal);
                assert(r.terminal.take(d.terminal.len() as int) =~= d.terminal);
            }
        }
    } else {
        assert(d.frame.take(d.frame.len() as int) =~= d.frame);
        assert(d.terminal.take(d.terminal.len() as int) =~= d.terminal);
    }
}

/// A picture the terminal already holds is placed, never sent again: the
/// step for its line adds nothing for the terminal.
pub proof fn law_pictures_are_sent_once(
    lines: Seq<Seq<char>>,
    i: int,
    end: int,
    offset: int,
    layout: Layout,
    archive: Seq<u8>,
    d: Drawn,
)
    requires
        0 <= i < lines.len(),
        marker_row(lines[i]) matches Some((row, rows, col, cols, path)) && d.sent.contains(
            picture_key(crate::text::utf8(path), wrapping_mul(cols as u32, layout.cell.0), wrapping_mul(rows as u32, layout.cell.1)),
        ),
    ensures
        draw_step(lines, i, end, offset, layout, archive, d).1.terminal == d.terminal,
        draw_step(lines, i, end, offset, layout, archive, d).1.sent == d.sent,
{
}

/// The lines from `offset`, a page of `page` of them, within the chapter.
pub open spec fn page_end(offset: int, page: int, len: int) -> int {
    if offset + page < len { offset + page } else { len }
}

fn mul32(a: u32, b: u32) -> (r: u32)
    ensures
        r == wrapping_mul(a, b),
{
    assert((a as int) * (b as int) < 0x1_0000_0000_0000_0000) by (nonlinear_arith)
        requires
            a < 0x1_0000_0000,
            b < 0x1_0000_0000,
    ;
    ((a as u64 * b as u64) % 0x1_0000_0000) as u32
}

fn push_placement(frame: &mut Vec<char>, line: u64, col: u64, id: u32, y: u32, width: u32, height: u32, cols: u64, visible: u64)
    ensures
        final(frame)@ == old(frame)@ + placement(line as nat, col as nat, id, y, width, height, cols as nat, visible as nat),
{
    let ghost before = frame@;
    frame.push('\x1b');
    frame.push('[');
    push_decimal(frame, line);
    frame.push(';');
    push_decimal(frame, col);
    frame.push('H');
    push_str(frame, "\x1b_Ga=p,i=");
    push_decimal(frame, id as u64);
    push_str(frame, ",x=0,y=");
    push_decimal(frame, y as u64);
    push_str(frame, ",w=");
    push_decimal(frame, width as u64);
    push_str(frame, ",h=");
    push_decimal(frame, height as u64);
    push_str(frame, ",c=");
    push_decimal(frame, cols);
    push_str(frame, ",r=");
    push_decimal(frame, visible);
    push_str(frame, ",C=1,q=2\x1b\\");
    assert(frame@ =~= before + placement(line as nat, col as nat, id, y, width, height, cols as nat, visible as nat));
}

/// The canvas of the picture at `path` in the archive, if it can be read.
pub open spec fn picture_canvas(archive: Seq<u8>, path: Seq<char>, width: u32, height: u32) -> Option<PictureView> {
    match zip_entry(archive, path) {
        Some(bytes) => canvas_of(bytes, width, height),
        None => None,
    }
}

fn canvas_at(archive: &[u8], path: &str, width: u32, height: u32) -> (r: Option<Picture>)
    ensures
        opt_picture(r) == picture_canvas(archive@, path@, width, height),
{
    match read_zip_bytes(archive, path) {
        Some(bytes) => canvas(bytes.as_slice(), width, height),
        None => None,
    }
}

impl Kitty {
    fn draw_line(
        &mut self,
        lines: &Vec<String>,
        i: usize,
        end: usize,
        offset: usize,
        layout: &Layout,
        archive: &[u8],
        frame: &mut Vec<char>,
        terminal: &mut Vec<char>,
    ) -> (next: usize)
        requires
            offset <= i < end <= lines@.len(),
        ensures
            i < next <= end,
            (next as int, Drawn { frame: final(frame)@, terminal: final(terminal)@, sent: final(self)@ }) == draw_step(
                lines@.map_values(|l: String| l@),
                i as int,
                end as int,
                offset as int,
                *layout,
                archive@,
                Drawn { frame: old(frame)@, terminal: old(terminal)@, sent: old(self)@ },
            ),
    {
        let ghost views = lines@.map_values(|l: String| l@);
        assert(views[i as int] == lines@[i as int]@);
        let row = match parse_row(lines[i].as_str()) {
            Some(r) => r,
            None => return i + 1,
        };
        if row.row >= row.rows || row.col == usize::MAX {
            return i + 1;
        }
        let visible = if row.rows - row.row < end - i { row.rows - row.row } else { end - i };
        #[verifier::truncate]
        let cols32 = row.cols as u32;
        #[verifier::truncate]
        let rows32 = row.rows as u32;
        #[verifier::truncate]
        let row32 = row.row as u32;
        #[verifier::truncate]
        let visible32 = visible as u32;
        let width = mul32(cols32, layout.cell.0);
        let height = mul32(rows32, layout.cell.1);
        let y = mul32(row32, layout.cell.1);
        let h = mul32(visible32, layout.cell.1);
        let id = picture_id(row.path.as_str(), width, height);
        if !self.has(id) {
            match canvas_at(archive, row.path.as_str(), width, height) {
                Some(c) => {
                    let t = transmit(id, &c);
                    push_str(terminal, t.as_str());
                    self.mark_sent(id);
                },
                None => {
                    return i + visible;
                },
            }
        }
        push_placement(frame, (i - offset + 1) as u64, (row.col + 1) as u64, id, y, width, h, row.cols as u64, visible as u64);
        i + visible
    }

    /// Places the pictures among the visible lines: returns the placements,
    /// which go into the frame, and the pixels of pictures the terminal
    /// does not have yet, which go straight to it, once per picture. A
    /// marker line whose row is not below its picture's rows is not part of
    /// a picture.
    pub fn draw(&mut self, lines: &Vec<String>, offset: usize, page: usize, layout: &Layout, archive: &[u8]) -> (r: (String, String))
        ensures
            ({
                let d = draw_from(
                    lines@.map_values(|l: String| l@),
                    offset as int,
                    page_end(offset as int, page as int, lines.len() as int),
                    offset as int,
                    *layout,
                    archive@,
                    Drawn { frame: Seq::empty(), terminal: Seq::empty(), sent: old(self)@ },
                );
                &&& r.0@ == d.frame
                &&& r.1@ == d.terminal
                &&& final(self)@ == d.sent
            }),
    {
        let ghost views = lines@.map_values(|l: String| l@);
        let end: usize = if page < lines.len() && offset < lines.len() - page { offset + page } else { lines.len() };
        assert(end as int == page_end(offset as int, page as int, lines.len() as int));
        let mut frame: Vec<char> = Vec::new();
        let mut terminal: Vec<char> = Vec::new();
        let mut i = offset;
        let ghost start = Drawn { frame: Seq::empty(), terminal: Seq::empty(), sent: self@ };
        assert(frame@ =~= Seq::<char>::empty());
        assert(terminal@ =~= Seq::<char>::empty());
        while i < end
            invariant
                end <= lines@.len(),
                offset <= i,
                views == lines@.map_values(|l: String| l@),
                views.len() == lines@.len(),
                draw_from(views, offset as int, end as int, offset as int, *layout, archive@, start)
                    == draw_from(views, i as int, end as int, offset as int, *layout, archive@, Drawn { frame: frame@, terminal: terminal@, sent: self@ }),
            decreases end - i,
        {
            let next = self.draw_line(lines, i, end, offset, layout, archive, &mut frame, &mut terminal);
            i = next;
        }
        (string_of(&frame), string_of(&terminal))
    }
}

} // verus!
