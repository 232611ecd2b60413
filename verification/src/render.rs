//! Text to PNG rendering with the glyph atlas.
//!
//!   - Trailing whitespace is stripped from every line and runs of blank
//!     lines collapse to a single blank line.
//!   - Lines longer than 80 characters are hard-wrapped into pieces of 80
//!     characters, cut at character boundaries; each character takes one
//!     cell, so a line stays within its column.
//!   - Newspaper layout: lines fill columns top to bottom, columns fill a
//!     page left to right, so that each page stays within 1568 pixels for
//!     small cells; every page becomes one 8-bit grayscale PNG.

use vstd::prelude::*;
use vstd::string::StringSliceAdditionalSpecFns;
use crate::font::{AtlasFont, same_font, lemma_same_font_blits, law_blit_darkens, lemma_blit_pixel};
use crate::text::{
    split_lines,
    lines_from,
    trim_end_ws,
    ws_suffix_len,
    find_byte_from,
    trim_end_index,
    copy_range,
};

verus! {

pub const MAX_EDGE: u32 = 1568;

pub const COL_GAP_PX: u32 = 4;

pub const WRAP_CHARS: usize = 80;

pub struct Png {
    pub bytes: Vec<u8>,
    pub width: u32,
    pub height: u32,
}

/// The bytes start with the PNG signature and fit an allocation.
pub open spec fn is_png_file(bytes: Seq<u8>) -> bool {
    &&& bytes.len() >= 8
    &&& bytes.subrange(0, 8) == png_signature()
    &&& bytes.len() <= isize::MAX
}

/// Abstract value of an encoded page.
pub struct PngImage {
    pub bytes: Seq<u8>,
    pub width: u32,
    pub height: u32,
}

impl View for Png {
    type V = PngImage;

    open spec fn view(&self) -> PngImage {
        PngImage { bytes: self.bytes@, width: self.width, height: self.height }
    }
}

pub open spec fn images(pngs: Seq<Png>) -> Seq<PngImage> {
    pngs.map_values(|p: Png| p@)
}

pub open spec fn views(v: Seq<Vec<u8>>) -> Seq<Seq<u8>> {
    v.map_values(|x: Vec<u8>| x@)
}

/// The eight-byte signature that starts every PNG file.
pub open spec fn png_signature() -> Seq<u8> {
    seq![137u8, 80u8, 78u8, 71u8, 13u8, 10u8, 26u8, 10u8]
}

/// The bytes that the `png` crate writes for an 8-bit grayscale image of
/// `width` x `height` pixels (row-major) with best compression.
pub uninterp spec fn gray8_png(pixels: Seq<u8>, width: u32, height: u32) -> Seq<u8>;

/// What `String::from_utf8_lossy` makes of `bytes`: each invalid sequence
/// replaced by U+FFFD, encoded as UTF-8.
pub uninterp spec fn utf8_lossy(bytes: Seq<u8>) -> Seq<u8>;

/// Encodes an 8-bit grayscale buffer as a PNG with `png::Encoder` (color
/// type grayscale, depth eight, best compression). The contract claims the
/// result is `gray8_png` of the arguments and starts with the PNG signature,
/// which the encoder's `write_header` writes first, and (as for any `Vec`)
/// that it holds at most `isize::MAX` bytes; a non-zero size and a buffer of
/// exactly `width * height` bytes are what the encoder accepts.
#[verifier::external_body]
fn encode_indexed_png(pixels: &[u8], width: u32, height: u32) -> (out: Vec<u8>)
    requires
        width > 0,
        height > 0,
        pixels@.len() == width * height,
    ensures
        out@ == gray8_png(pixels@, width, height),
        out@.len() >= 8,
        out@.subrange(0, 8) == png_signature(),
        out@.len() <= isize::MAX,
{
    let mut out: Vec<u8> = Vec::new();
    {
        let mut encoder = png::Encoder::new(&mut out, width, height);
        encoder.set_color(png::ColorType::Grayscale);
        encoder.set_depth(png::BitDepth::Eight);
        encoder.set_compression(png::Compression::Best);
        let mut writer = encoder.write_header().expect("png header");
        writer.write_image_data(pixels).expect("png data");
    }
    out
}

/// The encoder is a function of its input: equal pixels and sizes give
/// equal PNG bytes (so a rendering can be cached and compared).
pub proof fn law_png_deterministic(p1: Seq<u8>, p2: Seq<u8>, width: u32, height: u32)
    requires
        p1 == p2,
    ensures
        gray8_png(p1, width, height) == gray8_png(p2, width, height),
{
}

/// `String::from_utf8_lossy` as bytes. The contract claims the result is
/// `utf8_lossy` of the input, and the input itself when it is valid UTF-8
/// (the documented borrowed case).
#[verifier::external_body]
fn from_utf8_lossy(bytes: &[u8]) -> (out: Vec<u8>)
    ensures
        out@ == utf8_lossy(bytes@),
        vstd::utf8::valid_utf8(bytes@) ==> out@ == bytes@,
{
    String::from_utf8_lossy(bytes).into_owned().into_bytes()
}

// ----- line preparation -----
/// The placeholder kept for a run of blank lines.
pub open spec fn blank_line() -> Seq<u8> {
    seq![0x20u8]
}

/// Trims every line and keeps one placeholder per run of blank lines;
/// `last_blank` tells whether the previous line was blank.
pub open spec fn minify_from(lines: Seq<Seq<u8>>, last_blank: bool) -> Seq<Seq<u8>>
    decreases lines.len(),
{
    if lines.len() == 0 {
        Seq::empty()
    } else {
        let t = trim_end_ws(lines[0]);
        let rest = lines.subrange(1, lines.len() as int);
        if t.len() == 0 {
            if last_blank {
                minify_from(rest, true)
            } else {
                seq![blank_line()] + minify_from(rest, true)
            }
        } else {
            seq![t] + minify_from(rest, false)
        }
    }
}

/// The minified lines of `text`; a text without lines gives one blank line.
pub open spec fn minified(text: Seq<u8>) -> Seq<Seq<u8>> {
    let m = minify_from(split_lines(text), false);
    if m.len() == 0 {
        seq![blank_line()]
    } else {
        m
    }
}

/// A UTF-8 continuation byte (`10xxxxxx`): it never starts a character.
pub open spec fn is_continuation(b: u8) -> bool {
    0x80 <= b && b < 0xc0
}

/// The first byte at or after `j` that starts a character (is not a
/// continuation byte), or the end of `s`.
pub open spec fn next_start(s: Seq<u8>, j: int) -> int
    decreases s.len() - j,
{
    if j < 0 || j >= s.len() || !is_continuation(s[j]) {
        j
    } else {
        next_start(s, j + 1)
    }
}

/// The byte index reached after `n` characters of `s` from byte `i` (a
/// character is a byte with the continuation bytes that follow it), or the
/// end of `s` when fewer characters remain.
pub open spec fn skip_chars(s: Seq<u8>, i: int, n: nat) -> int
    decreases n,
{
    if n == 0 || i < 0 || i >= s.len() {
        i
    } else {
        skip_chars(s, next_start(s, i + 1), (n - 1) as nat)
    }
}

pub proof fn lemma_next_start(s: Seq<u8>, j: int)
    requires
        0 <= j <= s.len(),
    ensures
        j <= next_start(s, j) <= s.len(),
    decreases s.len() - j,
{
    if j < s.len() && is_continuation(s[j]) {
        lemma_next_start(s, j + 1);
    }
}

pub proof fn lemma_skip_chars(s: Seq<u8>, i: int, n: nat)
    requires
        0 <= i <= s.len(),
    ensures
        i <= skip_chars(s, i, n) <= s.len(),
        n > 0 && i < s.len() ==> i < skip_chars(s, i, n),
    decreases n,
{
    if n > 0 && i < s.len() {
        lemma_next_start(s, i + 1);
        lemma_skip_chars(s, next_start(s, i + 1), (n - 1) as nat);
    }
}

/// Pieces of at most 80 characters of `line` from byte `i` on, cut at
/// character boundaries, each passed through `utf8_lossy` (which changes
/// only bytes that are not UTF-8).
pub open spec fn wrap_pieces(line: Seq<u8>, i: int) -> Seq<Seq<u8>>
    decreases line.len() - i,
{
    if i < 0 || i >= line.len() {
        Seq::empty()
    } else {
        let end = skip_chars(line, i, 80);
        proof {
            lemma_skip_chars(line, i, 80);
        }
        seq![utf8_lossy(line.subrange(i, end))] + wrap_pieces(line, end)
    }
}

/// A line of at most 80 characters stays whole; a longer one is
/// hard-wrapped into pieces of 80 characters.
pub open spec fn wrap_line(line: Seq<u8>) -> Seq<Seq<u8>> {
    if skip_chars(line, 0, 80) >= line.len() {
        seq![line]
    } else {
        wrap_pieces(line, 0)
    }
}

pub open spec fn wrap_all(lines: Seq<Seq<u8>>) -> Seq<Seq<u8>>
    decreases lines.len(),
{
    if lines.len() == 0 {
        Seq::empty()
    } else {
        wrap_line(lines[0]) + wrap_all(lines.subrange(1, lines.len() as int))
    }
}

/// The display lines of `text`, in order.
pub open spec fn display_lines(text: Seq<u8>) -> Seq<Seq<u8>> {
    wrap_all(minified(text))
}

// ----- layout -----
pub open spec fn col_width(cell_w: int) -> int {
    80 * cell_w + 1
}

pub open spec fn lines_per_col(cell_h: int) -> int {
    if 1568int / cell_h >= 8 {
        1568int / cell_h
    } else {
        8
    }
}

pub open spec fn max_cols(cell_w: int) -> int {
    if 1568int / (col_width(cell_w) + 4) >= 1 {
        1568int / (col_width(cell_w) + 4)
    } else {
        1
    }
}

pub open spec fn lines_per_page(cell_w: int, cell_h: int) -> int {
    lines_per_col(cell_h) * max_cols(cell_w)
}

/// Number of columns that a page of `n` lines uses.
pub open spec fn page_cols(n: int, lpc: int) -> int {
    if (n + lpc - 1) / lpc >= 1 {
        (n + lpc - 1) / lpc
    } else {
        1
    }
}

pub open spec fn page_width(cell_w: int, cols: int) -> int {
    cols * col_width(cell_w) + (cols - 1) * 4
}

pub open spec fn page_height(cell_h: int, n: int, cols: int, lpc: int) -> int {
    (if cols == 1 {
        n
    } else {
        lpc
    }) * cell_h
}

/// The widest and tallest pages the font can produce.
pub open spec fn max_page_width(font: AtlasFont) -> int {
    page_width(font.cell_w as int, max_cols(font.cell_w as int))
}

pub open spec fn max_page_height(font: AtlasFont) -> int {
    lines_per_col(font.cell_h as int) * font.cell_h
}

/// The font can be used for rendering: well-formed, with a non-empty cell
/// height, and a cell size for which the largest page and its pixel count
/// fit the `u32` arithmetic of the layout.
pub open spec fn render_ready(font: AtlasFont) -> bool {
    &&& font.wf()
    &&& font.cell_h >= 1
    &&& col_width(font.cell_w as int) + 4 <= u32::MAX
    &&& max_page_width(font) * max_page_height(font) <= u32::MAX
    &&& max_page_width(font) + font.cell_w <= u32::MAX
}

/// Images of the pages of `lines`: consecutive pages of `n` lines (the
/// last may be shorter), one image per page.
pub open spec fn page_images(font: AtlasFont, lines: Seq<Seq<u8>>, n: int) -> Seq<PngImage>
    decreases lines.len(),
{
    if lines.len() == 0 || n <= 0 {
        Seq::empty()
    } else {
        let e = if n <= lines.len() {
            n
        } else {
            lines.len() as int
        };
        seq![page_image(font, lines.subrange(0, e))] + page_images(
            font,
            lines.subrange(e, lines.len() as int),
            n,
        )
    }
}

// ----- drawing -----
/// Draws the characters of `line` one cell apart from `(x, y)` on,
/// stopping at the first character whose cell would cross the right edge:
/// each character's first byte is drawn in its cell (a byte outside the
/// atlas leaves it blank) and continuation bytes take no cell, so a line of
/// 80 characters stays within its 80-cell column.
pub open spec fn draw_text(
    font: AtlasFont,
    buf: Seq<u8>,
    w: u32,
    h: u32,
    line: Seq<u8>,
    x: int,
    y: int,
) -> Seq<u8>
    decreases line.len(),
{
    if line.len() == 0 || x + font.cell_w > w {
        buf
    } else if is_continuation(line[0]) {
        draw_text(font, buf, w, h, line.subrange(1, line.len() as int), x, y)
    } else {
        draw_text(
            font,
            font.blitted(line[0], buf, w, h, x as u32, y as u32),
            w,
            h,
            line.subrange(1, line.len() as int),
            x + font.cell_w,
            y,
        )
    }
}

/// Draws `lines` one cell height apart from `(x, y)` on.
pub open spec fn draw_column(
    font: AtlasFont,
    buf: Seq<u8>,
    w: u32,
    h: u32,
    lines: Seq<Seq<u8>>,
    x: int,
    y: int,
) -> Seq<u8>
    decreases lines.len(),
{
    if lines.len() == 0 {
        buf
    } else {
        draw_column(
            font,
            draw_text(font, buf, w, h, lines[0], x, y),
            w,
            h,
            lines.subrange(1, lines.len() as int),
            x,
            y + font.cell_h,
        )
    }
}

/// Lines of column `c` of a page: `lpc` lines per column.
pub open spec fn column_lines(page: Seq<Seq<u8>>, lpc: int, c: int) -> Seq<Seq<u8>> {
    let s = c * lpc;
    let e = if s + lpc <= page.len() {
        s + lpc
    } else {
        page.len() as int
    };
    page.subrange(s, e)
}

/// Draws columns `c..cols` of a page, column `k` starting at `k * pitch`.
pub open spec fn draw_columns(
    font: AtlasFont,
    buf: Seq<u8>,
    w: u32,
    h: u32,
    page: Seq<Seq<u8>>,
    lpc: int,
    pitch: int,
    c: int,
    cols: int,
) -> Seq<u8>
    decreases cols - c,
{
    if c >= cols {
        buf
    } else {
        draw_columns(
            font,
            draw_column(font, buf, w, h, column_lines(page, lpc, c), c * pitch, 0),
            w,
            h,
            page,
            lpc,
            pitch,
            c + 1,
            cols,
        )
    }
}

pub open spec fn blank_canvas(n: int) -> Seq<u8> {
    Seq::new(n as nat, |i: int| 255u8)
}

/// Width of the image of `page`.
pub open spec fn page_w(font: AtlasFont, page: Seq<Seq<u8>>) -> u32 {
    let lpc = lines_per_col(font.cell_h as int);
    page_width(font.cell_w as int, page_cols(page.len() as int, lpc)) as u32
}

/// Height of the image of `page`.
pub open spec fn page_h(font: AtlasFont, page: Seq<Seq<u8>>) -> u32 {
    let lpc = lines_per_col(font.cell_h as int);
    let cols = page_cols(page.len() as int, lpc);
    page_height(font.cell_h as int, page.len() as int, cols, lpc) as u32
}

/// The gray pixels of the image of `page`, row by row: its columns drawn
/// on white paper.
pub open spec fn page_pixels(font: AtlasFont, page: Seq<Seq<u8>>) -> Seq<u8> {
    let lpc = lines_per_col(font.cell_h as int);
    let w = page_w(font, page);
    let h = page_h(font, page);
    draw_columns(
        font,
        blank_canvas(w * h),
        w,
        h,
        page,
        lpc,
        col_width(font.cell_w as int) + 4,
        0,
        page_cols(page.len() as int, lpc),
    )
}

/// The image of one page: its size, and its pixels as drawn on paper.
pub open spec fn page_image(font: AtlasFont, page: Seq<Seq<u8>>) -> PngImage {
    let w = page_w(font, page);
    let h = page_h(font, page);
    PngImage { bytes: gray8_png(page_pixels(font, page), w, h), width: w, height: h }
}

/// The images that rendering `text` (UTF-8 bytes) produces, one per page.
pub open spec fn rendered(font: AtlasFont, text: Seq<u8>) -> Seq<PngImage> {
    page_images(
        font,
        display_lines(text),
        lines_per_page(font.cell_w as int, font.cell_h as int),
    )
}

// ----- exec -----
fn blank_line_vec() -> (v: Vec<u8>)
    ensures
        v@ == blank_line(),
{
    let mut v: Vec<u8> = Vec::new();
    v.push(0x20u8);
    v
}

/// Splits `text` into lines, trims trailing whitespace and collapses runs of
/// blank lines.
fn minify(text: &[u8]) -> (out: Vec<Vec<u8>>)
    ensures
        views(out@) == minified(text@),
{
    let mut out: Vec<Vec<u8>> = Vec::new();
    let mut last_blank = false;
    let mut start: usize = 0;
    let ghost all = minify_from(split_lines(text@), false);
    while start < text.len()
        invariant
            start <= text@.len(),
            views(out@) + minify_from(lines_from(text@, start as int), last_blank) == all,
        decreases text@.len() - start,
    {
        let e = find_byte_from(text, 0x0a, start);
        let te = trim_end_index(text, start, e);
        let ghost ls = lines_from(text@, start as int);
        let ghost rest = lines_from(text@, e + 1);
        assert(ls == seq![text@.subrange(start as int, e as int)] + rest);
        assert(ls.subrange(1, ls.len() as int) == rest);
        assert(ls[0] == text@.subrange(start as int, e as int));
        let ghost before = views(out@);
        if te == start {
            if !last_blank {
                out.push(blank_line_vec());
                assert(views(out@) == before + seq![blank_line()]);
            }
            last_blank = true;
        } else {
            out.push(copy_range(text, start, te));
            assert(views(out@) == before + seq![text@.subrange(start as int, te as int)]);
            last_blank = false;
        }
        if e < text.len() {
            start = e + 1;
        } else {
            start = e;
            assert(lines_from(text@, start as int) == rest);
        }
    }
    assert(lines_from(text@, start as int) == Seq::<Seq<u8>>::empty());
    assert(views(out@) == all);
    if out.len() == 0 {
        out.push(blank_line_vec());
        assert(views(out@) == seq![blank_line()]);
    }
    out
}

/// The byte index after `n` characters of `s` from byte `i`.
fn skip_chars_exec(s: &[u8], i: usize, n: usize) -> (r: usize)
    requires
        i <= s@.len(),
    ensures
        r == skip_chars(s@, i as int, n as nat),
{
    let mut j = i;
    let mut k: usize = 0;
    while k < n && j < s.len()
        invariant
            i <= j <= s@.len(),
            k <= n,
            skip_chars(s@, i as int, n as nat) == skip_chars(s@, j as int, (n - k) as nat),
        decreases n - k,
    {
        let mut m = j + 1;
        while m < s.len() && 0x80 <= s[m] && s[m] < 0xc0
            invariant
                j < m <= s@.len(),
                next_start(s@, j + 1) == next_start(s@, m as int),
            decreases s@.len() - m,
        {
            m = m + 1;
        }
        j = m;
        k = k + 1;
    }
    j
}

/// Hard-wraps one line into `out`.
fn wrap_into(out: &mut Vec<Vec<u8>>, line: &Vec<u8>)
    ensures
        views(final(out)@) == views(old(out)@) + wrap_line(line@),
{
    let n = line.len();
    if skip_chars_exec(line.as_slice(), 0, WRAP_CHARS) >= n {
        let ghost before = views(out@);
        out.push(copy_range(line.as_slice(), 0, n));
        assert(line@.subrange(0, n as int) == line@);
        assert(views(out@) == before + seq![line@]);
        return ;
    }
    let ghost start = views(out@);
    let mut i: usize = 0;
    while i < n
        invariant
            n == line@.len(),
            skip_chars(line@, 0, 80) < n,
            i <= n,
            views(out@) + wrap_pieces(line@, i as int) == start + wrap_pieces(line@, 0),
        decreases n - i,
    {
        let end = skip_chars_exec(line.as_slice(), i, WRAP_CHARS);
        proof {
            lemma_skip_chars(line@, i as int, 80);
        }
        let ghost before = views(out@);
        let piece = from_utf8_lossy(&line.as_slice()[i..end]);
        out.push(piece);
        assert(views(out@) == before + seq![utf8_lossy(line@.subrange(i as int, end as int))]);
        i = end;
    }
    assert(wrap_pieces(line@, i as int) == Seq::<Seq<u8>>::empty());
}

/// Hard-wraps every line.
fn wrap(lines: &Vec<Vec<u8>>) -> (out: Vec<Vec<u8>>)
    ensures
        views(out@) == wrap_all(views(lines@)),
{
    let mut out: Vec<Vec<u8>> = Vec::new();
    let mut k: usize = 0;
    let ghost all = views(lines@);
    assert(all.subrange(0, all.len() as int) == all);
    assert(views(out@) == Seq::<Seq<u8>>::empty());
    while k < lines.len()
        invariant
            k <= lines@.len(),
            all == views(lines@),
            views(out@) + wrap_all(all.subrange(k as int, all.len() as int)) == wrap_all(all),
        decreases lines@.len() - k,
    {
        let ghost rest = all.subrange(k as int, all.len() as int);
        assert(rest[0] == lines@[k as int]@);
        assert(rest.subrange(1, rest.len() as int) == all.subrange(k + 1, all.len() as int));
        wrap_into(&mut out, &lines[k]);
        k = k + 1;
    }
    assert(all.subrange(k as int, all.len() as int) == Seq::<Seq<u8>>::empty());
    out
}

/// Every glyph placement on a `w` x `h` canvas stays inside the canvas.
proof fn lemma_blit_in_canvas(font: AtlasFont, ch: u8, w: u32, h: u32, x: u32, y: u32)
    requires
        w * h <= u32::MAX,
    ensures
        font.blit_in_bounds(ch, w * h, w, h, x, y),
{
    let rows = font.visible_rows(h, y);
    let cols = font.visible_cols(w, x);
    if rows > 0 && cols > 0 {
        let ly = y + rows - 1;
        let lx = x + cols - 1;
        assert(ly * w + lx < w * h) by (nonlinear_arith)
            requires
                0 <= ly < h,
                0 <= lx < w,
        ;
    }
}

/// Draws `line` from `(x0, y)` on, one cell per character, up to the right
/// edge.
fn draw_text_exec(font: &AtlasFont, buf: &mut Vec<u8>, w: u32, h: u32, line: &[u8], x0: u32, y: u32)
    requires
        font.wf(),
        old(buf)@.len() == w * h,
        w * h <= u32::MAX,
        x0 <= w,
        w + font.cell_w <= u32::MAX,
    ensures
        final(buf)@ == draw_text(*font, old(buf)@, w, h, line@, x0 as int, y as int),
        final(buf)@.len() == w * h,
{
    let ghost buf0 = buf@;
    let ghost target = draw_text(*font, buf0, w, h, line@, x0 as int, y as int);
    let mut x = x0;
    let mut j: usize = 0;
    assert(line@.subrange(0, line@.len() as int) == line@);
    while j < line.len() && x + font.cell_w <= w
        invariant
            font.wf(),
            buf@.len() == w * h,
            w * h <= u32::MAX,
            w + font.cell_w <= u32::MAX,
            x <= w,
            j <= line@.len(),
            target == draw_text(
                *font,
                buf@,
                w,
                h,
                line@.subrange(j as int, line@.len() as int),
                x as int,
                y as int,
            ),
        decreases line@.len() - j,
    {
        let ghost rest = line@.subrange(j as int, line@.len() as int);
        assert(rest[0] == line@[j as int]);
        assert(rest.subrange(1, rest.len() as int) == line@.subrange(j + 1, line@.len() as int));
        if 0x80 <= line[j] && line[j] < 0xc0 {
            j = j + 1;
        } else {
            proof {
                lemma_blit_in_canvas(*font, line@[j as int], w, h, x, y);
            }
            font.blit(line[j], buf.as_mut_slice(), w, h, x, y);
            x = x + font.cell_w;
            j = j + 1;
        }
    }
}

/// Draws `lines` in one column starting at `(x, 0)`.
fn draw_column_exec(font: &AtlasFont, buf: &mut Vec<u8>, w: u32, h: u32, lines: &[Vec<u8>], x: u32)
    requires
        font.wf(),
        old(buf)@.len() == w * h,
        w * h <= u32::MAX,
        x <= w,
        w + font.cell_w <= u32::MAX,
        lines@.len() * font.cell_h <= u32::MAX,
        font.cell_h >= 1,
    ensures
        final(buf)@ == draw_column(*font, old(buf)@, w, h, views(lines@), x as int, 0),
        final(buf)@.len() == w * h,
{
    let ghost all = views(lines@);
    let ghost target = draw_column(*font, buf@, w, h, all, x as int, 0);
    let mut i: usize = 0;
    assert(all.subrange(0, all.len() as int) == all);
    while i < lines.len()
        invariant
            font.wf(),
            all == views(lines@),
            buf@.len() == w * h,
            w * h <= u32::MAX,
            x <= w,
            w + font.cell_w <= u32::MAX,
            lines@.len() * font.cell_h <= u32::MAX,
            font.cell_h >= 1,
            i <= lines@.len(),
            target == draw_column(
                *font,
                buf@,
                w,
                h,
                all.subrange(i as int, all.len() as int),
                x as int,
                i * font.cell_h,
            ),
        decreases lines@.len() - i,
    {
        assert(i * font.cell_h <= u32::MAX && i <= u32::MAX) by (nonlinear_arith)
            requires
                i < lines@.len(),
                lines@.len() * font.cell_h <= u32::MAX,
                1 <= font.cell_h,
        ;
        let y: u32 = (i as u32) * font.cell_h;
        let ghost rest = all.subrange(i as int, all.len() as int);
        assert(rest[0] == lines@[i as int]@);
        assert(rest.subrange(1, rest.len() as int) == all.subrange(i + 1, all.len() as int));
        assert((i + 1) * font.cell_h == i * font.cell_h + font.cell_h) by (nonlinear_arith);
        draw_text_exec(font, buf, w, h, lines[i].as_slice(), x, y);
        i = i + 1;
    }
    assert(all.subrange(i as int, all.len() as int) == Seq::<Seq<u8>>::empty());
}

/// Bounds of the layout parameters.
proof fn lemma_layout_bounds(font: AtlasFont)
    requires
        render_ready(font),
    ensures
        1 <= lines_per_col(font.cell_h as int) <= 1568,
        1 <= max_cols(font.cell_w as int) <= 1568,
        1 <= lines_per_page(font.cell_w as int, font.cell_h as int) <= 1568 * 1568,
{
    let ch = font.cell_h as int;
    let colw = col_width(font.cell_w as int);
    assert(1568int / ch <= 1568) by (nonlinear_arith)
        requires
            ch >= 1,
    ;
    assert(1568int / (colw + 4) <= 1568) by (nonlinear_arith)
        requires
            colw + 4 >= 1,
    ;
    let a = lines_per_col(ch);
    let b = max_cols(font.cell_w as int);
    assert(1 <= a * b <= 1568 * 1568) by (nonlinear_arith)
        requires
            1 <= a <= 1568,
            1 <= b <= 1568,
    ;
}

/// Column count and size of a page of `n` lines, for a render-ready font.
proof fn lemma_page_dims(font: AtlasFont, n: int)
    requires
        render_ready(font),
        1 <= n <= lines_per_page(font.cell_w as int, font.cell_h as int),
    ensures
        ({
            let lpc = lines_per_col(font.cell_h as int);
            let mc = max_cols(font.cell_w as int);
            let cols = page_cols(n, lpc);
            let w = page_width(font.cell_w as int, cols);
            let h = page_height(font.cell_h as int, n, cols, lpc);
            &&& 1 <= lpc <= 1568
            &&& 1 <= mc <= 1568
            &&& cols == (n + lpc - 1) / lpc
            &&& 1 <= cols <= mc
            &&& (cols - 1) * lpc < n <= cols * lpc
            &&& (cols == 1 ==> n <= lpc)
            &&& 1 <= w <= max_page_width(font)
            &&& 1 <= h <= max_page_height(font)
            &&& w * h <= u32::MAX
            &&& cols * col_width(font.cell_w as int) <= w <= u32::MAX
            &&& lpc * font.cell_h <= u32::MAX
            &&& (cols - 1) * (col_width(font.cell_w as int) + 4) + col_width(font.cell_w as int)
                == w
        }),
{
    let cw = font.cell_w as int;
    let ch = font.cell_h as int;
    let lpc = lines_per_col(ch);
    let mc = max_cols(cw);
    let colw = col_width(cw);
    lemma_layout_bounds(font);
    let q = (n + lpc - 1) / lpc;
    let r = (n + lpc - 1) % lpc;
    vstd::arithmetic::div_mod::lemma_fundamental_div_mod(n + lpc - 1, lpc);
    assert(0 <= r < lpc);
    assert(q * lpc == n + lpc - 1 - r) by (nonlinear_arith)
        requires
            n + lpc - 1 == lpc * q + r,
    ;
    assert(q >= 1) by (nonlinear_arith)
        requires
            q * lpc == n + lpc - 1 - r,
            r < lpc,
            n >= 1,
            lpc >= 1,
    ;
    assert(q <= mc) by (nonlinear_arith)
        requires
            q * lpc == n + lpc - 1 - r,
            0 <= r,
            n <= lpc * mc,
            lpc >= 1,
    ;
    assert((q - 1) * lpc < n <= q * lpc) by (nonlinear_arith)
        requires
            q * lpc == n + lpc - 1 - r,
            0 <= r < lpc,
    ;
    let cols = page_cols(n, lpc);
    assert(cols == q);
    if cols == 1 {
        assert(n <= lpc) by (nonlinear_arith)
            requires
                n <= q * lpc,
                q == 1,
        ;
    }
    let w = page_width(cw, cols);
    let h = page_height(ch, n, cols, lpc);
    assert(w <= max_page_width(font)) by (nonlinear_arith)
        requires
            w == cols * colw + (cols - 1) * 4,
            max_page_width(font) == mc * colw + (mc - 1) * 4,
            cols <= mc,
            colw >= 1,
    ;
    assert(w >= 1) by (nonlinear_arith)
        requires
            w == cols * colw + (cols - 1) * 4,
            cols >= 1,
            colw >= 1,
    ;
    assert(h <= max_page_height(font) && h >= 1) by (nonlinear_arith)
        requires
            h == (if cols == 1 {
                n
            } else {
                lpc
            }) * ch,
            max_page_height(font) == lpc * ch,
            cols == 1 ==> n <= lpc,
            n >= 1,
            lpc >= 1,
            ch >= 1,
    ;
    assert(w * h <= max_page_width(font) * max_page_height(font)) by (nonlinear_arith)
        requires
            1 <= w <= max_page_width(font),
            1 <= h <= max_page_height(font),
    ;
    assert(lpc * ch <= u32::MAX) by (nonlinear_arith)
        requires
            max_page_width(font) >= 1,
            max_page_width(font) * (lpc * ch) <= u32::MAX,
            lpc * ch >= 0,
    ;
    assert(w <= u32::MAX) by (nonlinear_arith)
        requires
            w * h <= u32::MAX,
            h >= 1,
            w >= 1,
    ;
    assert((cols - 1) * (colw + 4) + colw == w) by (nonlinear_arith)
        requires
            w == cols * colw + (cols - 1) * 4,
    ;
}

fn blank_buffer(size: u32) -> (buf: Vec<u8>)
    ensures
        buf@ == blank_canvas(size as int),
{
    let mut buf: Vec<u8> = Vec::with_capacity(size as usize);
    let mut i: u32 = 0;
    while i < size
        invariant
            i <= size,
            buf@ == blank_canvas(i as int),
        decreases size - i,
    {
        buf.push(255u8);
        i = i + 1;
        assert(buf@ == blank_canvas(i as int));
    }
    buf
}

/// Lines per column for the font (at least eight).
fn lines_per_col_exec(font: &AtlasFont) -> (lpc: usize)
    requires
        font.cell_h >= 1,
    ensures
        lpc == lines_per_col(font.cell_h as int),
{
    let q = MAX_EDGE / font.cell_h;
    if q >= 8 {
        q as usize
    } else {
        8
    }
}

/// Whether `font` can be used for rendering (`render_ready`).
pub fn is_render_ready(font: &AtlasFont) -> (r: bool)
    ensures
        r == render_ready(*font),
{
    if font.first > font.last {
        return false;
    }
    let n_glyphs: usize = (font.last - font.first) as usize + 1;
    if font.glyphs.len() != n_glyphs {
        return false;
    }
    let cw = font.cell_w as u64;
    let ch = font.cell_h as u64;
    assert(cw * ch <= u64::MAX) by (nonlinear_arith)
        requires
            cw <= u32::MAX,
            ch <= u32::MAX,
    ;
    let size: u64 = cw * ch;
    if size > u32::MAX as u64 {
        return false;
    }
    let mut i: usize = 0;
    while i < font.glyphs.len()
        invariant
            i <= font.glyphs@.len(),
            size == font.cell_w * font.cell_h,
            forall|j: int| 0 <= j < i ==> #[trigger] font.glyphs@[j]@.len() == font.cell_w
                * font.cell_h,
        decreases font.glyphs@.len() - i,
    {
        if font.glyphs[i].len() as u64 != size {
            return false;
        }
        i = i + 1;
    }
    assert(font.wf());
    if ch < 1 {
        return false;
    }
    let colw: u64 = 80 * cw + 1;
    if colw + 4 > u32::MAX as u64 {
        return false;
    }
    let q: u64 = 1568 / (colw + 4);
    let mc: u64 = if q >= 1 {
        q
    } else {
        1
    };
    assert(mc <= 1568);
    assert(mc * colw <= 1568 * (u32::MAX as u64)) by (nonlinear_arith)
        requires
            mc <= 1568,
            colw <= u32::MAX,
    ;
    let mpw: u64 = mc * colw + (mc - 1) * 4;
    assert(mpw == max_page_width(*font));
    let q2: u64 = 1568 / ch;
    let lpc: u64 = if q2 >= 8 {
        q2
    } else {
        8
    };
    assert(lpc <= 1568);
    assert(lpc * ch <= 1568 * (u32::MAX as u64)) by (nonlinear_arith)
        requires
            lpc <= 1568,
            ch <= u32::MAX,
    ;
    let mph: u64 = lpc * ch;
    assert(mph == max_page_height(*font));
    let fits = match mpw.checked_mul(mph) {
        Some(p) => p <= u32::MAX as u64,
        None => false,
    };
    fits && mpw + cw <= u32::MAX as u64
}

/// Renders one page of lines into a PNG.
fn render_page(font: &AtlasFont, page: &[Vec<u8>]) -> (png: Png)
    requires
        render_ready(*font),
        1 <= page@.len() <= lines_per_page(font.cell_w as int, font.cell_h as int),
    ensures
        png@ == page_image(*font, views(page@)),
        is_png_file(png@.bytes),
{
    let ghost pv = views(page@);
    proof {
        lemma_page_dims(*font, page@.len() as int);
        lemma_layout_bounds(*font);
    }
    let cell_w = font.cell_w;
    let cell_h = font.cell_h;
    let col_w_px: u32 = 80 * cell_w + 1;
    let lpc = lines_per_col_exec(font);
    let n = page.len();
    let c_needed: u32 = ((n + lpc - 1) / lpc) as u32;
    assert(c_needed == page_cols(n as int, lpc as int));
    assert(col_w_px == col_width(cell_w as int));
    assert(c_needed * col_w_px <= u32::MAX);
    let chunk_w: u32 = c_needed * col_w_px + (c_needed - 1) * COL_GAP_PX;
    let tallest: usize = if c_needed == 1 {
        n
    } else {
        lpc
    };
    assert(tallest * cell_h <= lpc * cell_h) by (nonlinear_arith)
        requires
            tallest <= lpc,
    ;
    let chunk_h: u32 = (tallest as u32) * cell_h;
    let size: u32 = chunk_w * chunk_h;
    let mut buf = blank_buffer(size);
    let pitch: u32 = col_w_px + COL_GAP_PX;
    let ghost target = draw_columns(
        *font,
        buf@,
        chunk_w,
        chunk_h,
        pv,
        lpc as int,
        pitch as int,
        0,
        c_needed as int,
    );
    let mut c: u32 = 0;
    while c < c_needed
        invariant
            render_ready(*font),
            pv == views(page@),
            n == page@.len(),
            1 <= c_needed,
            (c_needed - 1) * lpc < n,
            1 <= lpc,
            lpc * cell_h <= u32::MAX,
            cell_h == font.cell_h,
            cell_w == font.cell_w,
            pitch == col_width(cell_w as int) + 4,
            (c_needed - 1) * pitch + col_width(cell_w as int) == chunk_w,
            chunk_w * chunk_h <= u32::MAX,
            chunk_w + cell_w <= u32::MAX,
            buf@.len() == chunk_w * chunk_h,
            c <= c_needed,
            target == draw_columns(
                *font,
                buf@,
                chunk_w,
                chunk_h,
                pv,
                lpc as int,
                pitch as int,
                c as int,
                c_needed as int,
            ),
        decreases c_needed - c,
    {
        assert(c * lpc <= (c_needed - 1) * lpc) by (nonlinear_arith)
            requires
                c < c_needed,
                lpc >= 1,
        ;
        assert(c * pitch <= (c_needed - 1) * pitch) by (nonlinear_arith)
            requires
                c < c_needed,
                pitch >= 1,
        ;
        let col_start: usize = (c as usize) * lpc;
        let col_end: usize = if n - col_start <= lpc {
            n
        } else {
            col_start + lpc
        };
        let x_base: u32 = c * pitch;
        let col = &page[col_start..col_end];
        assert(views(col@) == column_lines(pv, lpc as int, c as int));
        assert(col@.len() * cell_h <= lpc * cell_h) by (nonlinear_arith)
            requires
                col@.len() <= lpc,
        ;
        draw_column_exec(font, &mut buf, chunk_w, chunk_h, col, x_base);
        c = c + 1;
    }
    let bytes = encode_indexed_png(buf.as_slice(), chunk_w, chunk_h);
    Png { bytes, width: chunk_w, height: chunk_h }
}

/// Renders `text` into one grayscale PNG per page of the newspaper layout.
pub fn render_chunks(font: &AtlasFont, text: &str) -> (pngs: Vec<Png>)
    requires
        render_ready(*font),
    ensures
        images(pngs@) == rendered(*font, text.spec_bytes()),
        forall|k: int| 0 <= k < pngs@.len() ==> is_png_file(#[trigger] pngs@[k].bytes@),
{
    render_bytes(font, text.as_bytes())
}

/// `render_chunks` on the UTF-8 bytes of a text.
pub fn render_bytes(font: &AtlasFont, text: &[u8]) -> (pngs: Vec<Png>)
    requires
        render_ready(*font),
    ensures
        images(pngs@) == rendered(*font, text@),
        forall|k: int| 0 <= k < pngs@.len() ==> is_png_file(#[trigger] pngs@[k].bytes@),
{
    let raw = minify(text);
    let lines = wrap(&raw);
    let ghost lv = views(lines@);
    assert(lv == display_lines(text@));
    let lpc = lines_per_col_exec(font);
    let col_w_px: u32 = 80 * font.cell_w + 1;
    let q = MAX_EDGE / (col_w_px + COL_GAP_PX);
    let max_cols_per_img: usize = if q >= 1 {
        q as usize
    } else {
        1
    };
    proof {
        lemma_layout_bounds(*font);
    }
    let lines_per_img: usize = lpc * max_cols_per_img;
    let ghost lpp = lines_per_img as int;
    assert(lpp == lines_per_page(font.cell_w as int, font.cell_h as int));
    let ghost all = page_images(*font, lv, lpp);
    let mut pngs: Vec<Png> = Vec::new();
    let mut start: usize = 0;
    assert(lv.subrange(0, lv.len() as int) == lv);
    while start < lines.len()
        invariant
            render_ready(*font),
            lv == views(lines@),
            lpp == lines_per_img,
            lpp == lines_per_page(font.cell_w as int, font.cell_h as int),
            lpp >= 1,
            start <= lines@.len(),
            images(pngs@) + page_images(*font, lv.subrange(start as int, lv.len() as int), lpp)
                == all,
            forall|k: int| 0 <= k < pngs@.len() ==> is_png_file(#[trigger] pngs@[k].bytes@),
        decreases lines@.len() - start,
    {
        let chunk_end = if lines.len() - start <= lines_per_img {
            lines.len()
        } else {
            start + lines_per_img
        };
        let chunk = &lines.as_slice()[start..chunk_end];
        let ghost rest = lv.subrange(start as int, lv.len() as int);
        assert(views(chunk@) == rest.subrange(0, chunk_end - start));
        assert(rest.subrange(chunk_end - start, rest.len() as int) == lv.subrange(
            chunk_end as int,
            lv.len() as int,
        ));
        let png = render_page(font, chunk);
        let ghost before = images(pngs@);
        pngs.push(png);
        assert(images(pngs@) == before + seq![png@]);
        start = chunk_end;
    }
    assert(lv.subrange(start as int, lv.len() as int) == Seq::<Seq<u8>>::empty());
    assert(images(pngs@) == all);
    pngs
}

// ----- laws -----
proof fn lemma_wrap_all_nonempty(lines: Seq<Seq<u8>>)
    requires
        lines.len() >= 1,
    ensures
        wrap_all(lines).len() >= 1,
{
    let l = lines[0];
    if skip_chars(l, 0, 80) < l.len() {
        assert(wrap_pieces(l, 0).len() >= 1);
    }
    assert(wrap_line(l).len() >= 1);
}

/// Rendering any text yields at least one image.
pub proof fn law_render_nonempty(font: AtlasFont, text: Seq<u8>)
    requires
        render_ready(font),
    ensures
        rendered(font, text).len() >= 1,
{
    lemma_layout_bounds(font);
    lemma_wrap_all_nonempty(minified(text));
}

proof fn lemma_page_images_edge(font: AtlasFont, lines: Seq<Seq<u8>>)
    requires
        render_ready(font),
        font.cell_w <= 19,
        font.cell_h <= 196,
    ensures
        forall|k: int|
            0 <= k < page_images(
                font,
                lines,
                lines_per_page(font.cell_w as int, font.cell_h as int),
            ).len() ==> {
                let img = #[trigger] page_images(
                    font,
                    lines,
                    lines_per_page(font.cell_w as int, font.cell_h as int),
                )[k];
                img.width <= 1568 && img.height <= 1568
            },
    decreases lines.len(),
{
    let n = lines_per_page(font.cell_w as int, font.cell_h as int);
    lemma_layout_bounds(font);
    if lines.len() > 0 {
        let e = if n <= lines.len() {
            n
        } else {
            lines.len() as int
        };
        let page = lines.subrange(0, e);
        lemma_page_dims(font, page.len() as int);
        let colw = col_width(font.cell_w as int);
        let mc = max_cols(font.cell_w as int);
        let ch = font.cell_h as int;
        assert(1568int / (colw + 4) >= 1) by (nonlinear_arith)
            requires
                5 <= colw + 4 <= 1568,
        ;
        assert(1568int / ch >= 8) by (nonlinear_arith)
            requires
                1 <= ch <= 196,
        ;
        assert(mc * (colw + 4) <= 1568) by (nonlinear_arith)
            requires
                colw + 4 <= 1568,
                mc == 1568int / (colw + 4),
        ;
        assert(max_page_width(font) <= 1568) by (nonlinear_arith)
            requires
                mc * (colw + 4) <= 1568,
                max_page_width(font) == mc * colw + (mc - 1) * 4,
        ;
        assert(lines_per_col(ch) * ch <= 1568) by (nonlinear_arith)
            requires
                1 <= ch <= 196,
                lines_per_col(ch) == 1568int / ch,
        ;
        lemma_page_images_edge(font, lines.subrange(e, lines.len() as int));
        let all = page_images(font, lines, n);
        let rest = page_images(font, lines.subrange(e, lines.len() as int), n);
        assert(all == seq![page_image(font, page)] + rest);
        assert forall|k: int| 0 <= k < all.len() implies #[trigger] all[k].width <= 1568
            && all[k].height <= 1568 by {
            if k > 0 {
                assert(all[k] == rest[k - 1]);
            }
        }
    }
}

/// With glyph cells of at most 19 x 196 pixels, every image stays within
/// 1568 pixels on each side.
pub proof fn law_render_max_edge(font: AtlasFont, text: Seq<u8>)
    requires
        render_ready(font),
        font.cell_w <= 19,
        font.cell_h <= 196,
    ensures
        forall|k: int|
            0 <= k < rendered(font, text).len() ==> (#[trigger] rendered(font, text)[k]).width
                <= 1568 && rendered(font, text)[k].height <= 1568,
{
    lemma_page_images_edge(font, display_lines(text));
}

proof fn lemma_trimmed_has_no_trailing_ws(s: Seq<u8>)
    ensures
        ws_suffix_len(trim_end_ws(s)) == 0,
    decreases s.len(),
{
    if ws_suffix_len(s) != 0 {
        lemma_trimmed_has_no_trailing_ws(s.subrange(0, s.len() - ws_suffix_len(s)));
    }
}

proof fn lemma_minify_from(lines: Seq<Seq<u8>>, last_blank: bool)
    ensures
        ({
            let m = minify_from(lines, last_blank);
            &&& last_blank && m.len() > 0 ==> m[0] != blank_line()
            &&& forall|i: int|
                0 <= i < m.len() ==> #[trigger] m[i] == blank_line() || (m[i].len() > 0
                    && ws_suffix_len(m[i]) == 0)
            &&& forall|i: int|
                0 <= i < m.len() - 1 ==> !(#[trigger] m[i] == blank_line() && m[i + 1]
                    == blank_line())
        }),
    decreases lines.len(),
{
    if lines.len() > 0 {
        let t = trim_end_ws(lines[0]);
        let rest = lines.subrange(1, lines.len() as int);
        lemma_trimmed_has_no_trailing_ws(lines[0]);
        assert(ws_suffix_len(blank_line()) == 1);
        if t.len() == 0 {
            lemma_minify_from(rest, true);
            if !last_blank {
                let r = minify_from(rest, true);
                let m = seq![blank_line()] + r;
                assert forall|i: int| 0 <= i < m.len() - 1 implies !(#[trigger] m[i]
                    == blank_line() && m[i + 1] == blank_line()) by {
                    if i > 0 {
                        assert(m[i] == r[i - 1]);
                        assert(m[i + 1] == r[i]);
                    }
                }
                assert forall|i: int| 0 <= i < m.len() implies #[trigger] m[i] == blank_line() || (
                m[i].len() > 0 && ws_suffix_len(m[i]) == 0) by {
                    if i > 0 {
                        assert(m[i] == r[i - 1]);
                    }
                }
            }
        } else {
            lemma_minify_from(rest, false);
            let r = minify_from(rest, false);
            let m = seq![t] + r;
            assert(t != blank_line());
            assert forall|i: int| 0 <= i < m.len() - 1 implies !(#[trigger] m[i] == blank_line()
                && m[i + 1] == blank_line()) by {
                if i > 0 {
                    assert(m[i] == r[i - 1]);
                    assert(m[i + 1] == r[i]);
                }
            }
            assert forall|i: int| 0 <= i < m.len() implies #[trigger] m[i] == blank_line() || (
            m[i].len() > 0 && ws_suffix_len(m[i]) == 0) by {
                if i > 0 {
                    assert(m[i] == r[i - 1]);
                }
            }
        }
    }
}

/// Minified lines carry no trailing whitespace, and a run of blank lines
/// leaves a single blank line: no two blank lines are adjacent.
pub proof fn law_minified_lines(text: Seq<u8>)
    ensures
        forall|i: int|
            0 <= i < minified(text).len() ==> #[trigger] minified(text)[i] == blank_line() || (
            minified(text)[i].len() > 0 && ws_suffix_len(minified(text)[i]) == 0),
        forall|i: int|
            0 <= i < minified(text).len() - 1 ==> !(#[trigger] minified(text)[i] == blank_line()
                && minified(text)[i + 1] == blank_line()),
{
    lemma_minify_from(split_lines(text), false);
}

/// Rendering sees a text only through its minified lines: texts that
/// differ only in trailing whitespace or in the length of blank-line runs
/// render alike.
pub proof fn law_render_by_minified(font: AtlasFont, t1: Seq<u8>, t2: Seq<u8>)
    requires
        minified(t1) == minified(t2),
    ensures
        rendered(font, t1) == rendered(font, t2),
{
}

/// Rendering is a function of the font and the text: two renderings of the
/// same text with the same font give the same images (so a cache keyed by
/// the text is sound).
pub proof fn law_render_deterministic(
    font: AtlasFont,
    text: Seq<u8>,
    first: Seq<PngImage>,
    second: Seq<PngImage>,
)
    requires
        first == rendered(font, text),
        second == rendered(font, text),
    ensures
        first == second,
{
}

proof fn lemma_same_font_text(
    a: AtlasFont,
    b: AtlasFont,
    buf: Seq<u8>,
    w: u32,
    h: u32,
    line: Seq<u8>,
    x: int,
    y: int,
)
    requires
        same_font(a, b),
        a.wf(),
    ensures
        draw_text(a, buf, w, h, line, x, y) == draw_text(b, buf, w, h, line, x, y),
    decreases line.len(),
{
    if line.len() > 0 && x + a.cell_w <= w && is_continuation(line[0]) {
        lemma_same_font_text(a, b, buf, w, h, line.subrange(1, line.len() as int), x, y);
    } else if line.len() > 0 && x + a.cell_w <= w {
        lemma_same_font_blits(a, b, line[0], buf, w, h, x as u32, y as u32);
        lemma_same_font_text(
            a,
            b,
            a.blitted(line[0], buf, w, h, x as u32, y as u32),
            w,
            h,
            line.subrange(1, line.len() as int),
            x + a.cell_w,
            y,
        );
    }
}

proof fn lemma_same_font_column(
    a: AtlasFont,
    b: AtlasFont,
    buf: Seq<u8>,
    w: u32,
    h: u32,
    lines: Seq<Seq<u8>>,
    x: int,
    y: int,
)
    requires
        same_font(a, b),
        a.wf(),
    ensures
        draw_column(a, buf, w, h, lines, x, y) == draw_column(b, buf, w, h, lines, x, y),
    decreases lines.len(),
{
    if lines.len() > 0 {
        lemma_same_font_text(a, b, buf, w, h, lines[0], x, y);
        lemma_same_font_column(
            a,
            b,
            draw_text(a, buf, w, h, lines[0], x, y),
            w,
            h,
            lines.subrange(1, lines.len() as int),
            x,
            y + a.cell_h,
        );
    }
}

proof fn lemma_same_font_columns(
    a: AtlasFont,
    b: AtlasFont,
    buf: Seq<u8>,
    w: u32,
    h: u32,
    page: Seq<Seq<u8>>,
    lpc: int,
    pitch: int,
    c: int,
    cols: int,
)
    requires
        same_font(a, b),
        a.wf(),
    ensures
        draw_columns(a, buf, w, h, page, lpc, pitch, c, cols) == draw_columns(
            b,
            buf,
            w,
            h,
            page,
            lpc,
            pitch,
            c,
            cols,
        ),
    decreases cols - c,
{
    if c < cols {
        lemma_same_font_column(a, b, buf, w, h, column_lines(page, lpc, c), c * pitch, 0);
        lemma_same_font_columns(
            a,
            b,
            draw_column(a, buf, w, h, column_lines(page, lpc, c), c * pitch, 0),
            w,
            h,
            page,
            lpc,
            pitch,
            c + 1,
            cols,
        );
    }
}

proof fn lemma_same_font_pages(a: AtlasFont, b: AtlasFont, lines: Seq<Seq<u8>>, n: int)
    requires
        same_font(a, b),
        a.wf(),
    ensures
        page_images(a, lines, n) == page_images(b, lines, n),
    decreases lines.len(),
{
    if lines.len() > 0 && n > 0 {
        let e = if n <= lines.len() {
            n
        } else {
            lines.len() as int
        };
        let page = lines.subrange(0, e);
        let cw = a.cell_w as int;
        let lpc = lines_per_col(a.cell_h as int);
        let cols = page_cols(page.len() as int, lpc);
        let w = page_width(cw, cols) as u32;
        let h = page_height(a.cell_h as int, page.len() as int, cols, lpc) as u32;
        lemma_same_font_columns(a, b, blank_canvas(w * h), w, h, page, lpc, col_width(cw) + 4, 0, cols);
        assert(page_image(a, page) == page_image(b, page));
        lemma_same_font_pages(a, b, lines.subrange(e, lines.len() as int), n);
    }
}

/// Atlases that draw alike (`same_font`) render every text alike, and are
/// usable alike.
pub proof fn law_same_font_renders_alike(a: AtlasFont, b: AtlasFont, text: Seq<u8>)
    requires
        same_font(a, b),
        a.wf(),
    ensures
        rendered(a, text) == rendered(b, text),
        render_ready(a) == render_ready(b),
{
    lemma_same_font_pages(
        a,
        b,
        display_lines(text),
        lines_per_page(a.cell_w as int, a.cell_h as int),
    );
    assert forall|i: int| 0 <= i < b.glyphs@.len() implies #[trigger] b.glyphs@[i]@.len()
        == b.cell_w * b.cell_h by {
        assert(a.glyphs@[i]@ == b.glyphs@[i]@);
    }
}


// ----- every line of a page is drawn where the layout puts it -----
/// Drawing text only darkens the canvas and keeps its length.
proof fn lemma_text_darkens(font: AtlasFont, buf: Seq<u8>, w: u32, h: u32, line: Seq<u8>, x: int, y: int)
    ensures
        draw_text(font, buf, w, h, line, x, y).len() == buf.len(),
        forall|i: int|
            0 <= i < buf.len() ==> #[trigger] draw_text(font, buf, w, h, line, x, y)[i] <= buf[i],
    decreases line.len(),
{
    if line.len() == 0 || x + font.cell_w > w {
    } else if is_continuation(line[0]) {
        lemma_text_darkens(font, buf, w, h, line.subrange(1, line.len() as int), x, y);
    } else {
        let b1 = font.blitted(line[0], buf, w, h, x as u32, y as u32);
        law_blit_darkens(font, line[0], buf, w, h, x as u32, y as u32);
        lemma_text_darkens(font, b1, w, h, line.subrange(1, line.len() as int), x + font.cell_w, y);
        assert forall|i: int| 0 <= i < buf.len() implies #[trigger] draw_text(
            font,
            buf,
            w,
            h,
            line,
            x,
            y,
        )[i] <= buf[i] by {
            assert(b1[i] <= buf[i]);
        }
    }
}

/// Drawing a column only darkens the canvas and keeps its length.
proof fn lemma_column_darkens(
    font: AtlasFont,
    buf: Seq<u8>,
    w: u32,
    h: u32,
    lines: Seq<Seq<u8>>,
    x: int,
    y: int,
)
    ensures
        draw_column(font, buf, w, h, lines, x, y).len() == buf.len(),
        forall|i: int|
            0 <= i < buf.len() ==> #[trigger] draw_column(font, buf, w, h, lines, x, y)[i] <= buf[i],
    decreases lines.len(),
{
    if lines.len() > 0 {
        let b1 = draw_text(font, buf, w, h, lines[0], x, y);
        lemma_text_darkens(font, buf, w, h, lines[0], x, y);
        lemma_column_darkens(font, b1, w, h, lines.subrange(1, lines.len() as int), x, y + font.cell_h);
        assert forall|i: int| 0 <= i < buf.len() implies #[trigger] draw_column(
            font,
            buf,
            w,
            h,
            lines,
            x,
            y,
        )[i] <= buf[i] by {
            assert(b1[i] <= buf[i]);
        }
    }
}

/// Drawing columns only darkens the canvas and keeps its length.
proof fn lemma_columns_darkens(
    font: AtlasFont,
    buf: Seq<u8>,
    w: u32,
    h: u32,
    page: Seq<Seq<u8>>,
    lpc: int,
    pitch: int,
    c: int,
    cols: int,
)
    ensures
        draw_columns(font, buf, w, h, page, lpc, pitch, c, cols).len() == buf.len(),
        forall|i: int|
            0 <= i < buf.len() ==> #[trigger] draw_columns(font, buf, w, h, page, lpc, pitch, c, cols)[i]
                <= buf[i],
    decreases cols - c,
{
    if c < cols {
        let b1 = draw_column(font, buf, w, h, column_lines(page, lpc, c), c * pitch, 0);
        lemma_column_darkens(font, buf, w, h, column_lines(page, lpc, c), c * pitch, 0);
        lemma_columns_darkens(font, b1, w, h, page, lpc, pitch, c + 1, cols);
        assert forall|i: int| 0 <= i < buf.len() implies #[trigger] draw_columns(
            font,
            buf,
            w,
            h,
            page,
            lpc,
            pitch,
            c,
            cols,
        )[i] <= buf[i] by {
            assert(b1[i] <= buf[i]);
        }
    }
}

/// The first character of a line drawn at `(x, y)`, whose cell fits on the
/// canvas, leaves its glyph in that cell.
proof fn lemma_text_first_glyph(
    font: AtlasFont,
    buf: Seq<u8>,
    w: u32,
    h: u32,
    line: Seq<u8>,
    x: int,
    y: int,
    gx: int,
    gy: int,
)
    requires
        buf.len() == w * h,
        line.len() > 0,
        !is_continuation(line[0]),
        font.has_glyph(line[0]),
        0 <= x,
        0 <= y,
        x + font.cell_w <= w,
        y + font.cell_h <= h,
        0 <= gx < font.cell_w,
        0 <= gy < font.cell_h,
    ensures
        0 <= (y + gy) * w + (x + gx) < buf.len(),
        draw_text(font, buf, w, h, line, x, y)[(y + gy) * w + (x + gx)] <= font.glyph(line[0])[gy
            * font.cell_w + gx],
{
    let b1 = font.blitted(line[0], buf, w, h, x as u32, y as u32);
    assert(font.visible_cols(w, x as u32) == font.cell_w);
    assert(font.visible_rows(h, y as u32) == font.cell_h);
    lemma_blit_pixel(font, line[0], buf, w, h, x as u32, y as u32, gx, gy);
    law_blit_darkens(font, line[0], buf, w, h, x as u32, y as u32);
    lemma_text_darkens(font, b1, w, h, line.subrange(1, line.len() as int), x + font.cell_w, y);
    let i = (y + gy) * w + (x + gx);
    assert(b1[i] <= font.glyph(line[0])[gy * font.cell_w + gx]);
}

/// Line `k` of a column drawn from `(x, y0)` on leaves the glyph of its
/// first character at `(x, y0 + k * cell_h)`.
proof fn lemma_column_glyph(
    font: AtlasFont,
    buf: Seq<u8>,
    w: u32,
    h: u32,
    lines: Seq<Seq<u8>>,
    x: int,
    y0: int,
    k: int,
    gx: int,
    gy: int,
)
    requires
        buf.len() == w * h,
        0 <= k < lines.len(),
        lines[k].len() > 0,
        !is_continuation(lines[k][0]),
        font.has_glyph(lines[k][0]),
        0 <= x,
        0 <= y0,
        x + font.cell_w <= w,
        y0 + (k + 1) * font.cell_h <= h,
        0 <= gx < font.cell_w,
        0 <= gy < font.cell_h,
    ensures
        0 <= (y0 + k * font.cell_h + gy) * w + (x + gx) < buf.len(),
        draw_column(font, buf, w, h, lines, x, y0)[(y0 + k * font.cell_h + gy) * w + (x + gx)]
            <= font.glyph(lines[k][0])[gy * font.cell_w + gx],
    decreases k,
{
    let ch = font.cell_h as int;
    let b1 = draw_text(font, buf, w, h, lines[0], x, y0);
    let rest = lines.subrange(1, lines.len() as int);
    lemma_text_darkens(font, buf, w, h, lines[0], x, y0);
    if k == 0 {
        assert(k * ch == 0 && (k + 1) * ch == ch) by (nonlinear_arith)
            requires
                k == 0,
        ;
        lemma_text_first_glyph(font, buf, w, h, lines[0], x, y0, gx, gy);
        lemma_column_darkens(font, b1, w, h, rest, x, y0 + ch);
    } else {
        assert(rest[k - 1] == lines[k]);
        assert((y0 + ch) + (k - 1 + 1) * ch == y0 + (k + 1) * ch) by (nonlinear_arith);
        assert((y0 + ch) + (k - 1) * ch == y0 + k * ch) by (nonlinear_arith);
        assert(ch >= 0);
        lemma_column_glyph(font, b1, w, h, rest, x, y0 + ch, k - 1, gx, gy);
    }
}

/// Line `k` of column `cc` (with `c <= cc < cols`) leaves the glyph of its
/// first character at `(cc * pitch, k * cell_h)`.
proof fn lemma_columns_glyph(
    font: AtlasFont,
    buf: Seq<u8>,
    w: u32,
    h: u32,
    page: Seq<Seq<u8>>,
    lpc: int,
    pitch: int,
    c: int,
    cols: int,
    cc: int,
    k: int,
    gx: int,
    gy: int,
)
    requires
        buf.len() == w * h,
        0 <= c <= cc < cols,
        0 <= pitch,
        0 <= k < column_lines(page, lpc, cc).len(),
        column_lines(page, lpc, cc)[k].len() > 0,
        !is_continuation(column_lines(page, lpc, cc)[k][0]),
        font.has_glyph(column_lines(page, lpc, cc)[k][0]),
        cc * pitch + font.cell_w <= w,
        (k + 1) * font.cell_h <= h,
        0 <= gx < font.cell_w,
        0 <= gy < font.cell_h,
    ensures
        0 <= (k * font.cell_h + gy) * w + (cc * pitch + gx) < buf.len(),
        draw_columns(font, buf, w, h, page, lpc, pitch, c, cols)[(k * font.cell_h + gy) * w + (cc
            * pitch + gx)] <= font.glyph(column_lines(page, lpc, cc)[k][0])[gy * font.cell_w + gx],
    decreases cols - c,
{
    let b1 = draw_column(font, buf, w, h, column_lines(page, lpc, c), c * pitch, 0);
    lemma_column_darkens(font, buf, w, h, column_lines(page, lpc, c), c * pitch, 0);
    assert(0 <= c * pitch) by (nonlinear_arith)
        requires
            0 <= c,
            0 <= pitch,
    ;
    if c == cc {
        lemma_column_glyph(font, buf, w, h, column_lines(page, lpc, c), c * pitch, 0, k, gx, gy);
        lemma_columns_darkens(font, b1, w, h, page, lpc, pitch, c + 1, cols);
    } else {
        lemma_columns_glyph(font, b1, w, h, page, lpc, pitch, c + 1, cols, cc, k, gx, gy);
    }
}

/// Every line of a page is drawn where the newspaper layout puts it: line
/// `j` goes to column `j / lpc`, which starts `j / lpc` column pitches
/// (`col_width + 4` pixels) from the left edge, and to row `j % lpc` of
/// that column, so the cell of its first character, if the atlas has it,
/// is at least as dark as that character's glyph.
pub proof fn law_page_lines_drawn(font: AtlasFont, page: Seq<Seq<u8>>, j: int, gx: int, gy: int)
    requires
        render_ready(font),
        1 <= page.len() <= lines_per_page(font.cell_w as int, font.cell_h as int),
        0 <= j < page.len(),
        page[j].len() > 0,
        !is_continuation(page[j][0]),
        font.has_glyph(page[j][0]),
        0 <= gx < font.cell_w,
        0 <= gy < font.cell_h,
    ensures
        ({
            let lpc = lines_per_col(font.cell_h as int);
            let w = page_w(font, page) as int;
            let x = (j / lpc) * (col_width(font.cell_w as int) + 4);
            let y = (j % lpc) * font.cell_h;
            &&& page_pixels(font, page).len() == w * page_h(font, page)
            &&& 0 <= (y + gy) * w + (x + gx) < page_pixels(font, page).len()
            &&& page_pixels(font, page)[(y + gy) * w + (x + gx)] <= font.glyph(page[j][0])[gy
                * font.cell_w + gx]
        }),
{
    let cw = font.cell_w as int;
    let ch = font.cell_h as int;
    let n = page.len() as int;
    let lpc = lines_per_col(ch);
    let pitch = col_width(cw) + 4;
    let cols = page_cols(n, lpc);
    lemma_page_dims(font, n);
    let wi = page_width(cw, cols);
    let hi = page_height(ch, n, cols, lpc);
    assert(hi <= lpc * ch);
    let w = wi as u32;
    let h = hi as u32;
    assert(w == page_w(font, page) && h == page_h(font, page));
    assert(w * h == wi * hi);
    let buf = blank_canvas(w * h);
    let cc = j / lpc;
    let k = j % lpc;
    vstd::arithmetic::div_mod::lemma_fundamental_div_mod(j, lpc);
    assert(0 <= k < lpc);
    assert(j == cc * lpc + k) by (nonlinear_arith)
        requires
            j == lpc * (j / lpc) + (j % lpc),
            cc == j / lpc,
            k == j % lpc,
    ;
    assert(0 <= cc < cols) by (nonlinear_arith)
        requires
            j == cc * lpc + k,
            0 <= k < lpc,
            0 <= j < n,
            n <= cols * lpc,
            lpc >= 1,
    ;
    let s = cc * lpc;
    let e = if s + lpc <= n {
        s + lpc
    } else {
        n
    };
    assert(column_lines(page, lpc, cc) == page.subrange(s, e));
    assert(s + k == j && j < e);
    assert(column_lines(page, lpc, cc)[k] == page[j]);
    assert(cc * pitch + cw <= w) by (nonlinear_arith)
        requires
            0 <= cc <= cols - 1,
            pitch >= 0,
            (cols - 1) * pitch + col_width(cw) == wi,
            col_width(cw) == 80 * cw + 1,
            cw >= 0,
            w == wi,
    ;
    if cols == 1 {
        assert(cc == 0);
        assert((k + 1) * ch <= n * ch) by (nonlinear_arith)
            requires
                k + 1 <= n,
                ch >= 1,
        ;
    } else {
        assert((k + 1) * ch <= lpc * ch) by (nonlinear_arith)
            requires
                k + 1 <= lpc,
                ch >= 1,
        ;
    }
    lemma_columns_glyph(font, buf, w, h, page, lpc, pitch, 0, cols, cc, k, gx, gy);
    lemma_columns_darkens(font, buf, w, h, page, lpc, pitch, 0, cols);
}

} // verus!
