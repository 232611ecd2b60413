//! Fixed-cell glyph atlas for the printable ASCII range, and the blit that
//! draws one glyph into a grayscale canvas (0 = ink, 255 = paper).
//!
//! The outline rasterisation itself (floating point coverage from the TTF)
//! is done by the caller; this module turns the rasterised marks into cell
//! bitmaps and composites glyphs, keeping the darker value of every pixel.

use vstd::prelude::*;

verus! {

/// First code point held by the atlas (space).
pub const FIRST: u8 = 32;
/// Last code point held by the atlas (tilde).
pub const LAST: u8 = 126;

pub struct AtlasFont {
    pub cell_w: u32,
    pub cell_h: u32,
    pub ascent: i32,
    /// Glyph bitmaps, one per code point in `first..=last`; each holds
    /// `cell_w * cell_h` bytes in row-major order (0 = ink, 255 = paper).
    pub glyphs: Vec<Vec<u8>>,
    pub first: u8,
    pub last: u8,
}

/// One rasterised mark of a glyph outline: cell coordinates (possibly
/// outside the cell) and the ink amount (0 = none, 255 = full).
pub struct Mark {
    pub x: i32,
    pub y: i32,
    pub ink: u8,
}

pub open spec fn min_u8(a: u8, b: u8) -> u8 {
    if a <= b { a } else { b }
}

pub open spec fn min_int(a: int, b: int) -> int {
    if a <= b { a } else { b }
}

/// Height of the line cell: `ascent - descent`, at least one pixel.
pub open spec fn line_height(ascent: i32, descent: i32) -> int {
    if ascent - descent >= 1 { ascent - descent } else { 1 }
}

/// Applies the marks `marks[0..n]` in order to a cell bitmap: a mark inside
/// the cell darkens its pixel to `255 - ink` when that is darker.
pub open spec fn apply_marks(cell: Seq<u8>, marks: Seq<Mark>, cell_w: int, cell_h: int) -> Seq<u8>
    decreases marks.len(),
{
    if marks.len() == 0 {
        cell
    } else {
        let prev = apply_marks(cell, marks.drop_last(), cell_w, cell_h);
        let m = marks.last();
        if 0 <= m.x < cell_w && 0 <= m.y < cell_h {
            let idx = m.y * cell_w + m.x;
            let v = (255 - m.ink) as u8;
            if v < prev[idx] {
                prev.update(idx, v)
            } else {
                prev
            }
        } else {
            prev
        }
    }
}

/// The bitmap of one glyph: blank paper with its marks applied.
pub open spec fn glyph_bitmap(marks: Seq<Mark>, cell_w: int, cell_h: int) -> Seq<u8> {
    apply_marks(Seq::new((cell_w * cell_h) as nat, |i: int| 255u8), marks, cell_w, cell_h)
}

proof fn lemma_cell_index(x: int, y: int, w: int, h: int)
    requires
        0 <= x < w,
        0 <= y < h,
    ensures
        0 <= y * w + x < w * h,
{
    assert(y * w + x < w * h) by (nonlinear_arith)
        requires
            0 <= x < w,
            0 <= y < h,
    ;
    assert(0 <= y * w) by (nonlinear_arith)
        requires
            0 <= y,
            0 <= w,
    ;
}

proof fn lemma_row_major(y: int, x: int, w: int)
    requires
        0 <= x < w,
        0 <= y,
    ensures
        (y * w + x) / w == y,
        (y * w + x) % w == x,
{
    vstd::arithmetic::div_mod::lemma_fundamental_div_mod_converse(y * w + x, w, y, x);
}

proof fn lemma_row_major_inverse(i: int, w: int)
    requires
        w > 0,
    ensures
        i == (i / w) * w + i % w,
{
    vstd::arithmetic::div_mod::lemma_fundamental_div_mod(i, w);
    vstd::arithmetic::mul::lemma_mul_is_commutative(w, i / w);
}

impl AtlasFont {
    /// Structural well-formedness: one bitmap of `cell_w * cell_h` bytes per
    /// code point in `first..=last`, and a cell size that fits in a `u32`.
    pub open spec fn wf(&self) -> bool {
        &&& self.first <= self.last
        &&& self.glyphs@.len() == self.last - self.first + 1
        &&& self.cell_w * self.cell_h <= u32::MAX
        &&& forall|i: int|
            0 <= i < self.glyphs@.len() ==> #[trigger] self.glyphs@[i]@.len() == self.cell_w
                * self.cell_h
    }

    pub open spec fn has_glyph(&self, ch: u8) -> bool {
        self.first <= ch <= self.last
    }

    /// The bitmap drawn for byte `ch`.
    pub open spec fn glyph(&self, ch: u8) -> Seq<u8> {
        self.glyphs@[ch - self.first]@
    }

    /// Number of glyph rows that land inside a canvas of height `dst_h` when
    /// the glyph's top row is at `dy`.
    pub open spec fn visible_rows(&self, dst_h: u32, dy: u32) -> int {
        if dy < dst_h {
            min_int(self.cell_h as int, dst_h - dy)
        } else {
            0
        }
    }

    /// Number of glyph columns that land inside a canvas of width `dst_w`
    /// when the glyph's left column is at `dx`.
    pub open spec fn visible_cols(&self, dst_w: u32, dx: u32) -> int {
        if dx < dst_w {
            min_int(self.cell_w as int, dst_w - dx)
        } else {
            0
        }
    }

    /// Canvas index `i` (row-major, width `dst_w`) is under the visible part
    /// of the glyph cell placed at `(dx, dy)`, counting only rows before
    /// `rows` and, in row `rows`, columns before `cols`.
    pub open spec fn covers_upto(
        &self,
        dst_w: u32,
        dst_h: u32,
        dx: u32,
        dy: u32,
        rows: int,
        cols: int,
        i: int,
    ) -> bool {
        let gy = i / (dst_w as int) - dy;
        let gx = i % (dst_w as int) - dx;
        &&& dst_w > 0
        &&& 0 <= i
        &&& 0 <= gy < self.visible_rows(dst_h, dy)
        &&& 0 <= gx < self.visible_cols(dst_w, dx)
        &&& (gy < rows || (gy == rows && gx < cols))
    }

    /// The canvas after compositing the covered part (see `covers_upto`) of
    /// glyph `ch` at `(dx, dy)`: each covered pixel keeps the darker of its
    /// value and the glyph's.
    pub open spec fn composite_upto(
        &self,
        ch: u8,
        dst: Seq<u8>,
        dst_w: u32,
        dst_h: u32,
        dx: u32,
        dy: u32,
        rows: int,
        cols: int,
    ) -> Seq<u8> {
        Seq::new(
            dst.len(),
            |i: int|
                if self.covers_upto(dst_w, dst_h, dx, dy, rows, cols, i) {
                    min_u8(
                        dst[i],
                        self.glyph(ch)[(i / (dst_w as int) - dy) * self.cell_w + (i % (dst_w as int)
                            - dx)],
                    )
                } else {
                    dst[i]
                },
        )
    }

    /// The canvas after `blit(ch, ..)`: unchanged for a byte outside the
    /// atlas, else every pixel under the visible part of the glyph cell
    /// keeps the darker of its value and the glyph's.
    pub open spec fn blitted(
        &self,
        ch: u8,
        dst: Seq<u8>,
        dst_w: u32,
        dst_h: u32,
        dx: u32,
        dy: u32,
    ) -> Seq<u8> {
        if !self.has_glyph(ch) {
            dst
        } else {
            self.composite_upto(ch, dst, dst_w, dst_h, dx, dy, self.cell_h as int, 0)
        }
    }

    /// Every canvas index that `blit(ch, ..)` touches is inside `dst_len` and
    /// representable as a `u32` index.
    pub open spec fn blit_in_bounds(
        &self,
        ch: u8,
        dst_len: int,
        dst_w: u32,
        dst_h: u32,
        dx: u32,
        dy: u32,
    ) -> bool {
        let rows = self.visible_rows(dst_h, dy);
        let cols = self.visible_cols(dst_w, dx);
        let last = (dy + rows - 1) * dst_w + (dx + cols - 1);
        self.has_glyph(ch) && rows > 0 && cols > 0 ==> last < dst_len && last <= u32::MAX
    }

    /// Builds the atlas for `FIRST..=LAST` from rasterised outlines.
    ///
    /// `ascent` and `descent` are the font's rounded vertical metrics,
    /// `advance` the rounded advance of 'M'; `marks[k]` are the marks of code
    /// point `FIRST + k`, already shifted into cell coordinates.
    pub fn from_marks(ascent: i32, descent: i32, advance: u32, marks: &Vec<Vec<Mark>>) -> (font:
        AtlasFont)
        requires
            marks@.len() == LAST - FIRST + 1,
            i32::MIN <= ascent - descent <= i32::MAX,
            line_height(ascent, descent) * (if advance >= 1 {
                advance as int
            } else {
                1
            }) <= u32::MAX,
        ensures
            font.wf(),
            font.cell_h == line_height(ascent, descent),
            font.cell_w == if advance >= 1 {
                advance
            } else {
                1
            },
            font.ascent == ascent,
            font.first == FIRST,
            font.last == LAST,
            forall|k: int|
                0 <= k < marks@.len() ==> #[trigger] font.glyphs@[k]@ == glyph_bitmap(
                    marks@[k]@,
                    font.cell_w as int,
                    font.cell_h as int,
                ),
    {
        let diff = ascent - descent;
        let line_h: u32 = if diff >= 1 {
            diff as u32
        } else {
            1
        };
        let cell_w: u32 = if advance >= 1 {
            advance
        } else {
            1
        };
        let cell_h = line_h;
        assert(cell_w * cell_h == line_height(ascent, descent) * cell_w) by (nonlinear_arith)
            requires
                cell_h == line_height(ascent, descent),
        ;
        let size: u32 = cell_w * cell_h;
        let mut glyphs: Vec<Vec<u8>> = Vec::with_capacity(marks.len());
        let mut k: usize = 0;
        while k < marks.len()
            invariant
                k <= marks@.len(),
                size == cell_w * cell_h,
                cell_w >= 1,
                cell_h >= 1,
                glyphs@.len() == k,
                forall|j: int| 0 <= j < k ==> #[trigger] glyphs@[j]@.len() == size,
                forall|j: int|
                    0 <= j < k ==> #[trigger] glyphs@[j]@ == glyph_bitmap(
                        marks@[j]@,
                        cell_w as int,
                        cell_h as int,
                    ),
            decreases marks@.len() - k,
        {
            let bitmap = Self::rasterise(&marks[k], cell_w, cell_h, size);
            glyphs.push(bitmap);
            k = k + 1;
        }
        AtlasFont { cell_w, cell_h, ascent, glyphs, first: FIRST, last: LAST }
    }

    fn rasterise(marks: &Vec<Mark>, cell_w: u32, cell_h: u32, size: u32) -> (bitmap: Vec<u8>)
        requires
            size == cell_w * cell_h,
        ensures
            bitmap@ == glyph_bitmap(marks@, cell_w as int, cell_h as int),
            bitmap@.len() == size,
    {
        let mut bitmap: Vec<u8> = Vec::new();
        let mut i: u32 = 0;
        while i < size
            invariant
                i <= size,
                bitmap@ == Seq::new(i as nat, |j: int| 255u8),
            decreases size - i,
        {
            bitmap.push(255u8);
            i = i + 1;
        }
        let ghost blank = bitmap@;
        let mut n: usize = 0;
        while n < marks.len()
            invariant
                n <= marks@.len(),
                size == cell_w * cell_h,
                blank == Seq::new((cell_w * cell_h) as nat, |j: int| 255u8),
                bitmap@ == apply_marks(
                    blank,
                    marks@.subrange(0, n as int),
                    cell_w as int,
                    cell_h as int,
                ),
                bitmap@.len() == size,
            decreases marks@.len() - n,
        {
            let m = &marks[n];
            assert(marks@.subrange(0, n + 1).drop_last() == marks@.subrange(0, n as int));
            if m.x >= 0 && m.y >= 0 {
                let px = m.x as u32;
                let py = m.y as u32;
                if px < cell_w && py < cell_h {
                    proof {
                        lemma_cell_index(px as int, py as int, cell_w as int, cell_h as int);
                    }
                    let idx = (py * cell_w + px) as usize;
                    let cur = bitmap[idx];
                    let new_v: u8 = 255u8 - m.ink;
                    if new_v < cur {
                        bitmap.set(idx, new_v);
                    }
                }
            }
            n = n + 1;
        }
        assert(marks@.subrange(0, marks@.len() as int) == marks@);
        bitmap
    }

    /// Blits one glyph into a destination buffer (255 = paper, 0 = ink) with
    /// its top-left corner at `(dx, dy)`, keeping the darker of the existing
    /// and the glyph pixel; the parts of the cell outside the `dst_w` x
    /// `dst_h` canvas are clipped. Bytes outside the atlas draw nothing.
    pub fn blit(&self, ch: u8, dst: &mut [u8], dst_w: u32, dst_h: u32, dx: u32, dy: u32)
        requires
            self.wf(),
            self.blit_in_bounds(ch, old(dst)@.len() as int, dst_w, dst_h, dx, dy),
        ensures
            final(dst)@ == self.blitted(ch, old(dst)@, dst_w, dst_h, dx, dy),
    {
        if ch < self.first || ch > self.last {
            return ;
        }
        let bitmap = &self.glyphs[(ch - self.first) as usize];
        let ghost dst0 = dst@;
        let ghost k = ch - self.first;
        assert(bitmap@ == self.glyph(ch));
        let rows: u32 = if dy < dst_h {
            if self.cell_h <= dst_h - dy {
                self.cell_h
            } else {
                dst_h - dy
            }
        } else {
            0
        };
        let cols: u32 = if dx < dst_w {
            if self.cell_w <= dst_w - dx {
                self.cell_w
            } else {
                dst_w - dx
            }
        } else {
            0
        };
        assert(rows == self.visible_rows(dst_h, dy));
        assert(cols == self.visible_cols(dst_w, dx));
        let mut y: u32 = 0;
        while y < rows
            invariant
                self.wf(),
                self.has_glyph(ch),
                bitmap@ == self.glyph(ch),
                bitmap@.len() == self.cell_w * self.cell_h,
                rows == self.visible_rows(dst_h, dy),
                cols == self.visible_cols(dst_w, dx),
                self.blit_in_bounds(ch, dst0.len() as int, dst_w, dst_h, dx, dy),
                y <= rows,
                dst@ == self.composite_upto(ch, dst0, dst_w, dst_h, dx, dy, y as int, 0),
            decreases rows - y,
        {
            let py = dy + y;
            let mut x: u32 = 0;
            while x < cols
                invariant
                    self.wf(),
                    self.has_glyph(ch),
                    bitmap@ == self.glyph(ch),
                    bitmap@.len() == self.cell_w * self.cell_h,
                    rows == self.visible_rows(dst_h, dy),
                    cols == self.visible_cols(dst_w, dx),
                    self.blit_in_bounds(ch, dst0.len() as int, dst_w, dst_h, dx, dy),
                    y < rows,
                    py == dy + y,
                    x <= cols,
                    dst@ == self.composite_upto(ch, dst0, dst_w, dst_h, dx, dy, y as int, x as int),
                decreases cols - x,
            {
                let px = dx + x;
                proof {
                    lemma_cell_index(x as int, y as int, self.cell_w as int, self.cell_h as int);
                    let last_y = dy + rows - 1;
                    let last_x = dx + cols - 1;
                    assert(py * dst_w + px <= last_y * dst_w + last_x) by (nonlinear_arith)
                        requires
                            py <= last_y,
                            px <= last_x,
                            0 <= dst_w,
                    ;
                    lemma_row_major(py as int, px as int, dst_w as int);
                }
                let v = bitmap[(y * self.cell_w + x) as usize];
                let idx = (py * dst_w + px) as usize;
                let ghost before = dst@;
                if v < dst[idx] {
                    dst[idx] = v;
                }
                proof {
                    let target = self.composite_upto(
                        ch,
                        dst0,
                        dst_w,
                        dst_h,
                        dx,
                        dy,
                        y as int,
                        x + 1,
                    );
                    assert forall|i: int| 0 <= i < dst0.len() implies #[trigger] dst@[i]
                        == target[i] by {
                        if i != idx {
                            if self.covers_upto(dst_w, dst_h, dx, dy, y as int, x + 1, i) {
                                lemma_row_major_inverse(i, dst_w as int);
                                assert(self.covers_upto(
                                    dst_w,
                                    dst_h,
                                    dx,
                                    dy,
                                    y as int,
                                    x as int,
                                    i,
                                ));
                            }
                        } else {
                            assert(!self.covers_upto(
                                dst_w,
                                dst_h,
                                dx,
                                dy,
                                y as int,
                                x as int,
                                i,
                            ));
                            assert(self.covers_upto(dst_w, dst_h, dx, dy, y as int, x + 1, i));
                        }
                    }
                    assert(dst@ == target);
                }
                x = x + 1;
            }
            proof {
                let a = self.composite_upto(ch, dst0, dst_w, dst_h, dx, dy, y as int, cols as int);
                let b = self.composite_upto(ch, dst0, dst_w, dst_h, dx, dy, y + 1, 0);
                assert forall|i: int| 0 <= i < dst0.len() implies #[trigger] a[i] == b[i] by {
                    assert(self.covers_upto(dst_w, dst_h, dx, dy, y as int, cols as int, i)
                        == self.covers_upto(dst_w, dst_h, dx, dy, y + 1, 0, i));
                }
                assert(a == b);
            }
            y = y + 1;
        }
        proof {
            let a = self.composite_upto(ch, dst0, dst_w, dst_h, dx, dy, rows as int, 0);
            let b = self.composite_upto(ch, dst0, dst_w, dst_h, dx, dy, self.cell_h as int, 0);
            assert forall|i: int| 0 <= i < dst0.len() implies #[trigger] a[i] == b[i] by {
                assert(self.covers_upto(dst_w, dst_h, dx, dy, rows as int, 0, i)
                    == self.covers_upto(dst_w, dst_h, dx, dy, self.cell_h as int, 0, i));
            }
            assert(a == b);
        }
    }
}

/// Two atlases that draw alike: the same cell size, the same code points
/// and the same bitmap for each of them.
pub open spec fn same_font(a: AtlasFont, b: AtlasFont) -> bool {
    &&& a.cell_w == b.cell_w
    &&& a.cell_h == b.cell_h
    &&& a.first == b.first
    &&& a.last == b.last
    &&& a.glyphs@.len() == b.glyphs@.len()
    &&& forall|i: int| 0 <= i < a.glyphs@.len() ==> #[trigger] a.glyphs@[i]@ == b.glyphs@[i]@
}

/// Whether the two atlases draw alike (`same_font`).
pub fn fonts_match(a: &AtlasFont, b: &AtlasFont) -> (r: bool)
    ensures
        r == same_font(*a, *b),
{
    if a.cell_w != b.cell_w || a.cell_h != b.cell_h || a.first != b.first || a.last != b.last
        || a.glyphs.len() != b.glyphs.len() {
        return false;
    }
    let mut i: usize = 0;
    while i < a.glyphs.len()
        invariant
            i <= a.glyphs@.len(),
            a.glyphs@.len() == b.glyphs@.len(),
            forall|j: int| 0 <= j < i ==> #[trigger] a.glyphs@[j]@ == b.glyphs@[j]@,
        decreases a.glyphs@.len() - i,
    {
        if !crate::text::bytes_eq(a.glyphs[i].as_slice(), b.glyphs[i].as_slice()) {
            return false;
        }
        i = i + 1;
    }
    true
}

/// A copy of the atlas.
pub fn copy_font(f: &AtlasFont) -> (r: AtlasFont)
    ensures
        same_font(r, *f),
        r.ascent == f.ascent,
        f.wf() ==> r.wf(),
{
    let mut glyphs: Vec<Vec<u8>> = Vec::new();
    let mut i: usize = 0;
    while i < f.glyphs.len()
        invariant
            i <= f.glyphs@.len(),
            glyphs@.len() == i,
            forall|j: int| 0 <= j < i ==> #[trigger] glyphs@[j]@ == f.glyphs@[j]@,
        decreases f.glyphs@.len() - i,
    {
        let g = &f.glyphs[i];
        let c = crate::text::copy_range(g.as_slice(), 0, g.len());
        assert(g@.subrange(0, g@.len() as int) == g@);
        glyphs.push(c);
        i = i + 1;
    }
    AtlasFont {
        cell_w: f.cell_w,
        cell_h: f.cell_h,
        ascent: f.ascent,
        glyphs,
        first: f.first,
        last: f.last,
    }
}

/// Atlases that draw alike draw every glyph alike.
pub proof fn lemma_same_font_blits(
    a: AtlasFont,
    b: AtlasFont,
    ch: u8,
    dst: Seq<u8>,
    dst_w: u32,
    dst_h: u32,
    dx: u32,
    dy: u32,
)
    requires
        same_font(a, b),
        a.wf(),
    ensures
        a.blitted(ch, dst, dst_w, dst_h, dx, dy) == b.blitted(ch, dst, dst_w, dst_h, dx, dy),
{
    if a.has_glyph(ch) {
        assert(a.glyph(ch) == b.glyph(ch));
        assert(a.blitted(ch, dst, dst_w, dst_h, dx, dy) =~= b.blitted(ch, dst, dst_w, dst_h, dx, dy));
    }
}

/// Compositing a glyph only darkens: no pixel becomes lighter, and the
/// canvas keeps its length.
pub proof fn law_blit_darkens(
    font: AtlasFont,
    ch: u8,
    dst: Seq<u8>,
    dst_w: u32,
    dst_h: u32,
    dx: u32,
    dy: u32,
)
    ensures
        font.blitted(ch, dst, dst_w, dst_h, dx, dy).len() == dst.len(),
        forall|i: int|
            0 <= i < dst.len() ==> #[trigger] font.blitted(ch, dst, dst_w, dst_h, dx, dy)[i]
                <= dst[i],
{
}

/// Where the glyph's cell lands inside the canvas, each pixel becomes the
/// darker of what was there and the glyph's pixel.
pub proof fn lemma_blit_pixel(
    font: AtlasFont,
    ch: u8,
    dst: Seq<u8>,
    dst_w: u32,
    dst_h: u32,
    dx: u32,
    dy: u32,
    gx: int,
    gy: int,
)
    requires
        font.has_glyph(ch),
        dst.len() == dst_w * dst_h,
        0 <= gx < font.visible_cols(dst_w, dx),
        0 <= gy < font.visible_rows(dst_h, dy),
    ensures
        0 <= (dy + gy) * dst_w + (dx + gx) < dst.len(),
        font.blitted(ch, dst, dst_w, dst_h, dx, dy)[(dy + gy) * dst_w + (dx + gx)] == min_u8(
            dst[(dy + gy) * dst_w + (dx + gx)],
            font.glyph(ch)[gy * font.cell_w + gx],
        ),
{
    let x = dx + gx;
    let y = dy + gy;
    lemma_cell_index(x, y, dst_w as int, dst_h as int);
    lemma_row_major(y, x, dst_w as int);
    let i = y * dst_w + x;
    assert(font.covers_upto(dst_w, dst_h, dx, dy, font.cell_h as int, 0, i));
}

/// Drawing the same glyph twice at the same place draws it once.
pub proof fn law_blit_idempotent(
    font: AtlasFont,
    ch: u8,
    dst: Seq<u8>,
    dst_w: u32,
    dst_h: u32,
    dx: u32,
    dy: u32,
)
    ensures
        font.blitted(ch, font.blitted(ch, dst, dst_w, dst_h, dx, dy), dst_w, dst_h, dx, dy)
            == font.blitted(ch, dst, dst_w, dst_h, dx, dy),
{
    let once = font.blitted(ch, dst, dst_w, dst_h, dx, dy);
    let twice = font.blitted(ch, once, dst_w, dst_h, dx, dy);
    assert(twice =~= once);
}

/// The order in which two glyphs are drawn does not matter.
pub proof fn law_blit_commutes(
    font: AtlasFont,
    a: u8,
    ax: u32,
    ay: u32,
    b: u8,
    bx: u32,
    by: u32,
    dst: Seq<u8>,
    dst_w: u32,
    dst_h: u32,
)
    ensures
        font.blitted(a, font.blitted(b, dst, dst_w, dst_h, bx, by), dst_w, dst_h, ax, ay)
            == font.blitted(b, font.blitted(a, dst, dst_w, dst_h, ax, ay), dst_w, dst_h, bx, by),
{
    let l = font.blitted(a, font.blitted(b, dst, dst_w, dst_h, bx, by), dst_w, dst_h, ax, ay);
    let r = font.blitted(b, font.blitted(a, dst, dst_w, dst_h, ax, ay), dst_w, dst_h, bx, by);
    assert(l =~= r);
}

} // verus!
