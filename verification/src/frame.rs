//! Painting a whole frame of rain.
use vstd::prelude::*;

use crate::color::Rgb;
use crate::glyph::GlyphBmp;
use crate::paint::{blit_fits, blitted};
use crate::paint::{blit, can_blit};

verus! {

/// One column of the grid: the length of its trail, and which glyph stands in each row.
pub struct Column {
    pub len: i32,
    pub chars: Vec<u8>,
}

/// What a frame shows.
pub struct Scene<'a> {
    /// Width of the picture in pixels.
    pub width: usize,
    /// Height of the picture in pixels.
    pub height: usize,
    /// The glyphs that rain.
    pub glyphs: &'a Vec<GlyphBmp>,
    /// The columns, from the left.
    pub columns: &'a Vec<Column>,
    /// The row of each column's leader.
    pub heads: &'a Vec<i32>,
    /// The colours of each column's trail, from the leader on.
    pub fades: &'a Vec<Vec<(u32, u32, u32)>>,
    /// Width of a cell in pixels.
    pub cell_w: usize,
    /// Height of a cell in pixels.
    pub cell_h: usize,
    /// Rows of the grid.
    pub rows: usize,
    /// Colour of the leaders.
    pub head: Rgb,
}

/// Whether a number fits in 32 bits with its sign.
pub open spec fn fits(n: int) -> bool {
    i32::MIN <= n <= i32::MAX
}

/// The row of the cell that is `k` above the leader of the column `cx`.
pub open spec fn row_of(s: Scene<'_>, cx: int, k: int) -> int {
    s.heads@[cx] - k
}

/// Whether that cell is in the grid.
pub open spec fn shown(s: Scene<'_>, cx: int, k: int) -> bool {
    0 <= row_of(s, cx, k) < s.rows as i32
}

/// The glyph in that cell.
pub open spec fn glyph_in(s: Scene<'_>, cx: int, k: int) -> GlyphBmp {
    s.glyphs@[s.columns@[cx].chars@[row_of(s, cx, k)] as int]
}

/// The colour of that cell: the leader's, or that of the trail.
pub open spec fn tone_of(s: Scene<'_>, cx: int, k: int) -> (u32, u32, u32) {
    if k == 0 {
        (s.head.0 as u32, s.head.1 as u32, s.head.2 as u32)
    } else {
        s.fades@[cx]@[k - 1]
    }
}

/// The left edge of the column `cx`.
pub open spec fn left_of(s: Scene<'_>, cx: int) -> int {
    (cx as i32) * (s.cell_w as i32)
}

/// The upper edge of that cell.
pub open spec fn top_of(s: Scene<'_>, cx: int, k: int) -> int {
    row_of(s, cx, k) * (s.cell_h as i32)
}

/// Whether that cell, if it is shown, can be painted in a buffer of `len` pixels: its character
/// stands for a glyph, and the glyph, unless it is empty, fits where it goes.
pub open spec fn cell_fits(s: Scene<'_>, len: int, cx: int, k: int) -> bool {
    shown(s, cx, k) ==> {
        let g = glyph_in(s, cx, k);
        let tone = tone_of(s, cx, k);
        &&& row_of(s, cx, k) < s.columns@[cx].chars@.len()
        &&& s.columns@[cx].chars@[row_of(s, cx, k)] < s.glyphs@.len()
        &&& g.cov@.len() > 0 ==> {
            &&& fits(top_of(s, cx, k))
            &&& fits(left_of(s, cx) + g.left)
            &&& fits(top_of(s, cx, k) + g.top)
            &&& blit_fits(
                len,
                s.width,
                s.height,
                (left_of(s, cx) + g.left) as i32,
                (top_of(s, cx, k) + g.top) as i32,
                g,
                tone.0,
                tone.1,
                tone.2,
            )
        }
    }
}

/// Whether the column `cx` can be painted: its cells fit, and its trail has a colour for each.
pub open spec fn column_fits(s: Scene<'_>, len: int, cx: int) -> bool {
    &&& fits(left_of(s, cx))
    &&& s.fades@[cx]@.len() >= s.columns@[cx].len
    &&& s.columns@[cx].len >= 0 ==> fits(s.heads@[cx] - s.columns@[cx].len)
    &&& forall|k: int| 0 <= k <= s.columns@[cx].len ==> #[trigger] cell_fits(s, len, cx, k)
}

/// Whether the scene can be painted into a buffer of `len` pixels.
pub open spec fn paintable(s: Scene<'_>, len: int) -> bool {
    &&& s.heads@.len() == s.columns@.len()
    &&& s.fades@.len() == s.columns@.len()
    &&& forall|cx: int| 0 <= cx < s.columns@.len() ==> #[trigger] column_fits(s, len, cx)
}

/// The buffer after painting one cell.
pub open spec fn painted_cell(buf: Seq<u32>, s: Scene<'_>, cx: int, k: int) -> Seq<u32> {
    let g = glyph_in(s, cx, k);
    let tone = tone_of(s, cx, k);
    if shown(s, cx, k) && g.cov@.len() > 0 {
        blitted(
            buf,
            s.width,
            s.height,
            (left_of(s, cx) + g.left) as i32,
            (top_of(s, cx, k) + g.top) as i32,
            g,
            tone.0,
            tone.1,
            tone.2,
        )
    } else {
        buf
    }
}

/// The buffer after painting the first `n` cells of the column `cx`, from the leader upwards.
pub open spec fn painted_cells(buf: Seq<u32>, s: Scene<'_>, cx: int, n: nat) -> Seq<u32>
    decreases n,
{
    if n == 0 {
        buf
    } else {
        painted_cell(painted_cells(buf, s, cx, (n - 1) as nat), s, cx, n - 1)
    }
}

/// How many cells the column `cx` has, the leader included.
pub open spec fn cells_in(s: Scene<'_>, cx: int) -> nat {
    if s.columns@[cx].len < 0 {
        0
    } else {
        (s.columns@[cx].len + 1) as nat
    }
}

/// The buffer after painting the first `n` columns.
pub open spec fn painted_columns(buf: Seq<u32>, s: Scene<'_>, n: nat) -> Seq<u32>
    decreases n,
{
    if n == 0 {
        buf
    } else {
        painted_cells(
            painted_columns(buf, s, (n - 1) as nat),
            s,
            n - 1,
            cells_in(s, n - 1),
        )
    }
}

/// A black buffer.
pub open spec fn black(len: nat) -> Seq<u32> {
    Seq::new(len, |i: int| 0u32)
}

/// The frame that shows the scene, in `len` pixels: the columns from the left, each from its leader
/// upwards, over black.
pub open spec fn frame_of(s: Scene<'_>, len: nat) -> Seq<u32> {
    painted_columns(black(len), s, s.columns@.len())
}

/// Draws one frame over whatever the buffer holds. Pixels are `0x00RRGGBB`.
pub fn paint_frame(buf: &mut [u32], s: &Scene<'_>)
    requires
        paintable(*s, old(buf)@.len() as int),
    ensures
        final(buf)@ == frame_of(*s, old(buf)@.len()),
{
    let len: usize = buf.len();
    let mut i: usize = 0;
    while i < len
        invariant
            i <= len,
            buf@.len() == len,
            forall|j: int| 0 <= j < i ==> buf@[j] == 0,
        decreases len - i,
    {
        buf[i] = 0;
        i = i + 1;
    }
    assert(buf@ =~= black(len as nat));
    let cw: i32 = s.cell_w as i32;
    let chh: i32 = s.cell_h as i32;
    let rows: i32 = s.rows as i32;
    let n: usize = s.columns.len();
    for cx in 0..n
        invariant
            n == s.columns@.len(),
            cw == s.cell_w as i32,
            chh == s.cell_h as i32,
            rows == s.rows as i32,
            paintable(*s, len as int),
            buf@.len() == len,
            buf@ == painted_columns(black(len as nat), *s, cx as nat),
    {
        let ghost before = buf@;
        assert(column_fits(*s, len as int, cx as int));
        let col = &s.columns[cx];
        let head_i: i32 = s.heads[cx];
        let cell_x: i32 = (cx as i32) * cw;
        let last: i64 = col.len as i64;
        let mut k: i64 = 0;
        while k <= last
            invariant
                0 <= k,
                k <= last + 1 || last < 0,
                0 <= cx < n,
                n == s.columns@.len(),
                *col == s.columns@[cx as int],
                head_i == s.heads@[cx as int],
                last == col.len,
                chh == s.cell_h as i32,
                rows == s.rows as i32,
                cell_x == left_of(*s, cx as int),
                paintable(*s, len as int),
                column_fits(*s, len as int, cx as int),
                buf@.len() == len,
                last < 0 ==> k == 0,
                buf@ == painted_cells(before, *s, cx as int, k as nat),
            decreases last + 1 - k,
        {
            assert(cell_fits(*s, len as int, cx as int, k as int));
            let y: i32 = (head_i as i64 - k) as i32;
            assert(y == row_of(*s, cx as int, k as int));
            if y >= 0 && y < rows {
                let ch_idx: usize = col.chars[y as usize] as usize;
                let g = &s.glyphs[ch_idx];
                assert(*g == glyph_in(*s, cx as int, k as int));
                if g.cov.len() > 0 {
                    let (r, gr, b): (u32, u32, u32) = if k == 0 {
                        (s.head.0 as u32, s.head.1 as u32, s.head.2 as u32)
                    } else {
                        s.fades[cx][(k - 1) as usize]
                    };
                    assert((r, gr, b) == tone_of(*s, cx as int, k as int));
                    let cell_y: i32 = y * chh;
                    blit(
                        buf,
                        s.width,
                        s.height,
                        cell_x + g.left,
                        cell_y + g.top,
                        g,
                        r,
                        gr,
                        b,
                    );
                }
            }
            k = k + 1;
        }
    }
}

/// Whether the cell that is `k` above the leader of the column `cx` can be painted.
fn can_paint_cell(s: &Scene<'_>, len: usize, cx: usize, k: i64, cell_x: i32) -> (r: bool)
    requires
        cx < s.columns@.len(),
        s.heads@.len() == s.columns@.len(),
        s.fades@.len() == s.columns@.len(),
        0 <= k <= s.columns@[cx as int].len,
        s.fades@[cx as int]@.len() >= s.columns@[cx as int].len,
        fits(s.heads@[cx as int] - s.columns@[cx as int].len),
        cell_x == left_of(*s, cx as int),
    ensures
        r == cell_fits(*s, len as int, cx as int, k as int),
{
    let y: i32 = (s.heads[cx] as i64 - k) as i32;
    assert(y == row_of(*s, cx as int, k as int));
    if y < 0 || y >= s.rows as i32 {
        return true;
    }
    let col = &s.columns[cx];
    if y as usize >= col.chars.len() {
        return false;
    }
    let ch_idx: usize = col.chars[y as usize] as usize;
    if ch_idx >= s.glyphs.len() {
        return false;
    }
    let g = &s.glyphs[ch_idx];
    assert(*g == glyph_in(*s, cx as int, k as int));
    if g.cov.len() == 0 {
        return true;
    }
    let (red, green, blue): (u32, u32, u32) = if k == 0 {
        (s.head.0 as u32, s.head.1 as u32, s.head.2 as u32)
    } else {
        s.fades[cx][(k - 1) as usize]
    };
    assert((red, green, blue) == tone_of(*s, cx as int, k as int));
    let chh: i32 = s.cell_h as i32;
    proof {
        product_of_halves_fits(y, chh);
    }
    let cell_y: i64 = (y as i64) * (chh as i64);
    assert(cell_y == top_of(*s, cx as int, k as int));
    let ox: i64 = cell_x as i64 + g.left as i64;
    if cell_y < i32::MIN as i64 || cell_y > i32::MAX as i64 || ox < i32::MIN as i64 || ox
        > i32::MAX as i64 {
        return false;
    }
    let oy: i64 = cell_y + g.top as i64;
    if oy < i32::MIN as i64 || oy > i32::MAX as i64 {
        return false;
    }
    can_blit(len, s.width, s.height, ox as i32, oy as i32, g, red, green, blue)
}

proof fn product_of_halves_fits(a: i32, b: i32)
    ensures
        -0x4000_0000_0000_0000 <= a * b <= 0x4000_0000_0000_0000,
{
    assert(-0x4000_0000_0000_0000 <= a * b <= 0x4000_0000_0000_0000) by (nonlinear_arith)
        requires
            -0x8000_0000 <= a <= 0x7fff_ffff,
            -0x8000_0000 <= b <= 0x7fff_ffff,
    ;
}

/// Whether the scene can be painted into a buffer of `len` pixels.
pub fn can_paint(s: &Scene<'_>, len: usize) -> (r: bool)
    ensures
        r == paintable(*s, len as int),
{
    let n: usize = s.columns.len();
    if s.heads.len() != n || s.fades.len() != n {
        return false;
    }
    for cx in 0..n
        invariant
            n == s.columns@.len() == s.heads@.len() == s.fades@.len(),
            forall|c: int| 0 <= c < cx ==> #[trigger] column_fits(*s, len as int, c),
    {
        proof {
            product_of_halves_fits(cx as i32, s.cell_w as i32);
        }
        let cell_x: i64 = (cx as i32) as i64 * (s.cell_w as i32) as i64;
        assert(cell_x == left_of(*s, cx as int));
        let last: i64 = s.columns[cx].len as i64;
        if cell_x < i32::MIN as i64 || cell_x > i32::MAX as i64 || (s.fades[cx].len() as i128)
            < last as i128 || (last >= 0 && s.heads[cx] as i64 - last < i32::MIN as i64) {
            assert(!column_fits(*s, len as int, cx as int));
            return false;
        }
        let mut k: i64 = 0;
        while k <= last
            invariant
                0 <= k,
                k <= last + 1 || last < 0,
                cx < n,
                n == s.columns@.len() == s.heads@.len() == s.fades@.len(),
                last == s.columns@[cx as int].len,
                fits(cell_x as int),
                cell_x == left_of(*s, cx as int),
                s.fades@[cx as int]@.len() >= last,
                last >= 0 ==> fits(s.heads@[cx as int] - last),
                forall|j: int| 0 <= j < k ==> #[trigger] cell_fits(*s, len as int, cx as int, j),
            decreases last + 1 - k,
        {
            if !can_paint_cell(s, len, cx, k, cell_x as i32) {
                assert(!column_fits(*s, len as int, cx as int));
                return false;
            }
            k = k + 1;
        }
        assert(column_fits(*s, len as int, cx as int));
    }
    true
}

/// A column whose leader is still above the grid shows nothing, and neither does one that has left
/// the grid with its whole trail.
pub proof fn columns_off_the_grid_show_nothing(buf: Seq<u32>, s: Scene<'_>, cx: int, n: nat)
    requires
        s.heads@[cx] < 0 || s.heads@[cx] - s.columns@[cx].len >= s.rows as i32,
        n <= cells_in(s, cx),
    ensures
        painted_cells(buf, s, cx, n) == buf,
    decreases n,
{
    if n > 0 {
        columns_off_the_grid_show_nothing(buf, s, cx, (n - 1) as nat);
    }
}

/// Whether a buffer holds nothing but `0x00RRGGBB` pixels.
pub open spec fn all_rgb(buf: Seq<u32>) -> bool {
    forall|i: int| 0 <= i < buf.len() ==> #[trigger] buf[i] < 0x100_0000
}

proof fn cells_stay_rgb(buf: Seq<u32>, s: Scene<'_>, cx: int, n: nat)
    requires
        all_rgb(buf),
    ensures
        all_rgb(painted_cells(buf, s, cx, n)),
        painted_cells(buf, s, cx, n).len() == buf.len(),
    decreases n,
{
    if n > 0 {
        cells_stay_rgb(buf, s, cx, (n - 1) as nat);
        let before = painted_cells(buf, s, cx, (n - 1) as nat);
        let after = painted_cells(buf, s, cx, n);
        assert forall|i: int| 0 <= i < after.len() implies #[trigger] after[i] < 0x100_0000 by {
            assert(before[i] < 0x100_0000);
        }
    }
}

/// Every pixel of a frame is `0x00RRGGBB`, and the frame has the size of its buffer.
pub proof fn frames_are_rgb(s: Scene<'_>, len: nat, n: nat)
    ensures
        all_rgb(painted_columns(black(len), s, n)),
        painted_columns(black(len), s, n).len() == len,
    decreases n,
{
    if n > 0 {
        frames_are_rgb(s, len, (n - 1) as nat);
        cells_stay_rgb(
            painted_columns(black(len), s, (n - 1) as nat),
            s,
            n - 1,
            cells_in(s, n - 1),
        );
    }
}

} // verus!
