//! What every frame shows, pixel by pixel.
use vstd::prelude::*;

use crate::frame::{
    black, cell_fits, cells_in, column_fits, frame_of, painted_cell, painted_cells,
    painted_columns, paintable,
};
use crate::frame::Scene;
use crate::glyph::GlyphBmp;
use crate::paint::{
    blit_fits, in_view, is_tint, pixel_fits, place_splits, tints_are_parts_of_the_colour,
};

verus! {

/// Whether the numbers of a scene are small enough to be counted with a sign in 32 bits.
pub open spec fn countable(s: Scene<'_>) -> bool {
    &&& s.width <= i32::MAX
    &&& s.height <= i32::MAX
    &&& s.columns@.len() <= i32::MAX
    &&& s.cell_w <= i32::MAX
    &&& s.cell_h <= i32::MAX
    &&& s.rows <= i32::MAX
    &&& forall|i: int|
        0 <= i < s.glyphs@.len() ==> (#[trigger] s.glyphs@[i]).w <= i32::MAX && s.glyphs@[i].h
            <= i32::MAX
}

/// The glyph in the row `y` of the column `cx`.
pub open spec fn glyph_standing(s: Scene<'_>, cx: int, y: int) -> GlyphBmp {
    s.glyphs@[s.columns@[cx].chars@[y] as int]
}

/// The coverage that the cell in the row `y` of the column `cx` gives to the pixel `(px, py)`: that
/// of its glyph, which stands in the cell where its bitmap says, and nothing if the bitmap is empty.
pub open spec fn coverage(s: Scene<'_>, cx: int, y: int, px: int, py: int) -> u8 {
    let g = glyph_standing(s, cx, y);
    let gx = px - cx * s.cell_w - g.left;
    let gy = py - y * s.cell_h - g.top;
    if g.cov@.len() > 0 && 0 <= gx < g.w && 0 <= gy < g.h {
        g.cov@[gy * g.w + gx]
    } else {
        0
    }
}

/// Whether the cell `k` above the leader of the column `cx` is in its trail and in the grid, and
/// covers something of the pixel `(px, py)`.
pub open spec fn covers(s: Scene<'_>, cx: int, k: int, px: int, py: int) -> bool {
    &&& 0 <= cx < s.columns@.len()
    &&& 0 <= k <= s.columns@[cx].len
    &&& 0 <= s.heads@[cx] - k < s.rows
    &&& coverage(s, cx, s.heads@[cx] - k, px, py) > 0
}

/// Whether a pixel shows the leader's colour, or the trail's colour `k` above it, at the coverage of
/// that cell.
pub open spec fn shows_cell(s: Scene<'_>, cx: int, k: int, px: int, py: int, p: u32) -> bool {
    let a = coverage(s, cx, s.heads@[cx] - k, px, py);
    &&& k == 0 ==> is_tint(p, s.head.0 as int, s.head.1 as int, s.head.2 as int, a)
    &&& k > 0 ==> {
        let c = s.fades@[cx]@[k - 1];
        c.0 <= 255 && c.1 <= 255 && c.2 <= 255 ==> is_tint(p, c.0 as int, c.1 as int, c.2 as int, a)
    }
}

proof fn cells_change_what_they_cover(
    buf: Seq<u32>,
    s: Scene<'_>,
    len: int,
    cx: int,
    k: int,
    px: int,
    py: int,
)
    requires
        countable(s),
        paintable(s, len),
        0 <= cx < s.columns@.len(),
        0 <= k <= s.columns@[cx].len,
        0 <= px < s.width,
        0 <= py < s.height,
        0 <= py * s.width + px < buf.len(),
    ensures
        covers(s, cx, k, px, py) ==> shows_cell(
            s,
            cx,
            k,
            px,
            py,
            painted_cell(buf, s, cx, k)[py * s.width + px],
        ),
        !covers(s, cx, k, px, py) ==> painted_cell(buf, s, cx, k)[py * s.width + px] == buf[py
            * s.width + px],
        painted_cell(buf, s, cx, k).len() == buf.len(),
{
    assert(column_fits(s, len, cx));
    assert(cell_fits(s, len, cx, k));
    place_splits(s.width as int, px, py);
    let y = s.heads@[cx] - k;
    if 0 <= y < s.rows {
        let g = glyph_standing(s, cx, y);
        assert(s.glyphs@[s.columns@[cx].chars@[y] as int].w <= i32::MAX);
        if g.cov@.len() > 0 {
            let a = coverage(s, cx, y, px, py);
            if k == 0 {
                tints_are_parts_of_the_colour(
                    s.head.0 as u32,
                    s.head.1 as u32,
                    s.head.2 as u32,
                    a,
                );
            } else {
                let c = s.fades@[cx]@[k - 1];
                if c.0 <= 255 && c.1 <= 255 && c.2 <= 255 {
                    tints_are_parts_of_the_colour(c.0, c.1, c.2, a);
                }
            }
        }
    }
}

proof fn columns_show_their_last_cell(
    buf: Seq<u32>,
    s: Scene<'_>,
    len: int,
    cx: int,
    n: nat,
    k: int,
    px: int,
    py: int,
)
    requires
        countable(s),
        paintable(s, len),
        0 <= cx < s.columns@.len(),
        n <= cells_in(s, cx),
        0 <= px < s.width,
        0 <= py < s.height,
        0 <= py * s.width + px < buf.len(),
        -1 <= k < n,
        k >= 0 ==> covers(s, cx, k, px, py),
        forall|j: int| k < j < n ==> !#[trigger] covers(s, cx, j, px, py),
    ensures
        k >= 0 ==> shows_cell(
            s,
            cx,
            k,
            px,
            py,
            painted_cells(buf, s, cx, n)[py * s.width + px],
        ),
        k < 0 ==> painted_cells(buf, s, cx, n)[py * s.width + px] == buf[py * s.width + px],
        painted_cells(buf, s, cx, n).len() == buf.len(),
    decreases n,
{
    if n > 0 {
        let before = painted_cells(buf, s, cx, (n - 1) as nat);
        cells_keep_the_size(buf, s, cx, (n - 1) as nat);
        cells_change_what_they_cover(before, s, len, cx, n - 1, px, py);
        if k < n - 1 {
            assert(!covers(s, cx, n - 1, px, py));
            columns_show_their_last_cell(buf, s, len, cx, (n - 1) as nat, k, px, py);
        }
    }
}

proof fn cells_keep_the_size(buf: Seq<u32>, s: Scene<'_>, cx: int, n: nat)
    ensures
        painted_cells(buf, s, cx, n).len() == buf.len(),
    decreases n,
{
    if n > 0 {
        cells_keep_the_size(buf, s, cx, (n - 1) as nat);
    }
}

proof fn columns_keep_the_size(buf: Seq<u32>, s: Scene<'_>, n: nat)
    ensures
        painted_columns(buf, s, n).len() == buf.len(),
    decreases n,
{
    if n > 0 {
        columns_keep_the_size(buf, s, (n - 1) as nat);
        cells_keep_the_size(
            painted_columns(buf, s, (n - 1) as nat),
            s,
            n - 1,
            cells_in(s, n - 1),
        );
    }
}

proof fn frames_show_their_last_cell(
    buf: Seq<u32>,
    s: Scene<'_>,
    len: int,
    n: nat,
    cx: int,
    k: int,
    px: int,
    py: int,
)
    requires
        countable(s),
        paintable(s, len),
        n <= s.columns@.len(),
        0 <= px < s.width,
        0 <= py < s.height,
        0 <= py * s.width + px < buf.len(),
        -1 <= cx < n,
        cx >= 0 ==> covers(s, cx, k, px, py),
        cx >= 0 ==> forall|j: int| k < j ==> !#[trigger] covers(s, cx, j, px, py),
        forall|c: int, j: int| cx < c < n ==> !#[trigger] covers(s, c, j, px, py),
    ensures
        cx >= 0 ==> shows_cell(
            s,
            cx,
            k,
            px,
            py,
            painted_columns(buf, s, n)[py * s.width + px],
        ),
        cx < 0 ==> painted_columns(buf, s, n)[py * s.width + px] == buf[py * s.width + px],
    decreases n,
{
    if n > 0 {
        let before = painted_columns(buf, s, (n - 1) as nat);
        columns_keep_the_size(buf, s, (n - 1) as nat);
        if cx == n - 1 {
            columns_show_their_last_cell(before, s, len, cx, cells_in(s, cx), k, px, py);
        } else {
            assert forall|j: int| -1 < j < cells_in(s, n - 1) implies !#[trigger] covers(
                s,
                n - 1,
                j,
                px,
                py,
            ) by {}
            columns_show_their_last_cell(before, s, len, n - 1, cells_in(s, n - 1), -1, px, py);
            frames_show_their_last_cell(buf, s, len, (n - 1) as nat, cx, k, px, py);
        }
    }
}

/// Where cells overlap, the one on the right shows, and in a column the upper one: a pixel that the
/// cell `k` above a leader covers, and none further right or further up its column, has the colour
/// of that cell at its coverage, the leader's for `k` 0 and the trail's colour `k` otherwise.
pub proof fn pixels_show_the_last_cell_over_them(
    s: Scene<'_>,
    len: nat,
    cx: int,
    k: int,
    px: int,
    py: int,
)
    requires
        countable(s),
        paintable(s, len as int),
        0 <= px < s.width,
        0 <= py < s.height,
        0 <= py * s.width + px < len,
        covers(s, cx, k, px, py),
        forall|j: int| k < j ==> !#[trigger] covers(s, cx, j, px, py),
        forall|c: int, j: int| cx < c ==> !#[trigger] covers(s, c, j, px, py),
    ensures
        shows_cell(s, cx, k, px, py, frame_of(s, len)[py * s.width + px]),
{
    frames_show_their_last_cell(black(len), s, len as int, s.columns@.len(), cx, k, px, py);
}

/// A pixel that no cell covers is black.
pub proof fn uncovered_pixels_are_black(s: Scene<'_>, len: nat, px: int, py: int)
    requires
        countable(s),
        paintable(s, len as int),
        0 <= px < s.width,
        0 <= py < s.height,
        0 <= py * s.width + px < len,
        forall|c: int, j: int| !#[trigger] covers(s, c, j, px, py),
    ensures
        frame_of(s, len)[py * s.width + px] == 0,
        frame_of(s, len).len() == len,
{
    columns_keep_the_size(black(len), s, s.columns@.len());
    frames_show_their_last_cell(black(len), s, len as int, s.columns@.len(), -1, 0, px, py);
}

/// Pixels of the buffer that are outside the picture, past its last row, are black.
pub proof fn the_rest_of_the_buffer_is_black(s: Scene<'_>, len: nat, px: int, py: int)
    requires
        s.height <= i32::MAX,
        0 <= px < s.width,
        py >= s.height,
        0 <= py * s.width + px < len,
    ensures
        frame_of(s, len)[py * s.width + px] == 0,
{
    place_splits(s.width as int, px, py);
    rows_past_the_last_stay(black(len), s, s.columns@.len(), py * s.width + px);
}

proof fn rows_past_the_last_stay(buf: Seq<u32>, s: Scene<'_>, n: nat, i: int)
    requires
        s.height <= i32::MAX,
        0 <= i < buf.len(),
        i / (s.width as int) >= s.height,
    ensures
        painted_columns(buf, s, n)[i] == buf[i],
        painted_columns(buf, s, n).len() == buf.len(),
    decreases n,
{
    if n > 0 {
        rows_past_the_last_stay(buf, s, (n - 1) as nat, i);
        rows_past_the_last_stay_in_columns(
            painted_columns(buf, s, (n - 1) as nat),
            s,
            n - 1,
            cells_in(s, n - 1),
            i,
        );
    }
}

proof fn rows_past_the_last_stay_in_columns(
    buf: Seq<u32>,
    s: Scene<'_>,
    cx: int,
    n: nat,
    i: int,
)
    requires
        s.height <= i32::MAX,
        0 <= i < buf.len(),
        i / (s.width as int) >= s.height,
    ensures
        painted_cells(buf, s, cx, n)[i] == buf[i],
        painted_cells(buf, s, cx, n).len() == buf.len(),
    decreases n,
{
    if n > 0 {
        rows_past_the_last_stay_in_columns(buf, s, cx, (n - 1) as nat, i);
    }
}

/// Whether every glyph stays in its cell.
pub open spec fn in_cells(s: Scene<'_>) -> bool {
    forall|i: int|
        0 <= i < s.glyphs@.len() ==> {
            &&& 0 <= (#[trigger] s.glyphs@[i]).left
            &&& s.glyphs@[i].left + s.glyphs@[i].w <= s.cell_w
            &&& 0 <= s.glyphs@[i].top
            &&& s.glyphs@[i].top + s.glyphs@[i].h <= s.cell_h
        }
}

proof fn cells_lie_apart(a: int, b: int, size: int, x: int)
    requires
        a * size <= x < a * size + size,
        b * size <= x < b * size + size,
    ensures
        a == b,
{
    assert(a == b) by (nonlinear_arith)
        requires
            a * size <= x < a * size + size,
            b * size <= x < b * size + size,
    ;
}

/// Where glyphs stay in their cells, every cell of a trail shows its own colour: an inked pixel of
/// the leader the head colour, and one of the cell `k` above it, to the end of the trail, the trail's
/// colour `k`, each at the coverage of the pixel.
pub proof fn every_cell_shows_its_own_colour(
    s: Scene<'_>,
    len: nat,
    cx: int,
    k: int,
    px: int,
    py: int,
)
    requires
        countable(s),
        in_cells(s),
        paintable(s, len as int),
        0 <= px < s.width,
        0 <= py < s.height,
        0 <= py * s.width + px < len,
        covers(s, cx, k, px, py),
    ensures
        k == 0 ==> is_tint(
            frame_of(s, len)[py * s.width + px],
            s.head.0 as int,
            s.head.1 as int,
            s.head.2 as int,
            coverage(s, cx, s.heads@[cx] as int, px, py),
        ),
        k > 0 ==> ({
            let c = s.fades@[cx]@[k - 1];
            c.0 <= 255 && c.1 <= 255 && c.2 <= 255 ==> is_tint(
                frame_of(s, len)[py * s.width + px],
                c.0 as int,
                c.1 as int,
                c.2 as int,
                coverage(s, cx, s.heads@[cx] - k, px, py),
            )
        }),
{
    assert forall|c: int, j: int| #[trigger] covers(s, c, j, px, py) implies c == cx && j == k by {
        let y = s.heads@[cx] - k;
        let y2 = s.heads@[c] - j;
        assert(column_fits(s, len as int, cx));
        assert(cell_fits(s, len as int, cx, k));
        assert(column_fits(s, len as int, c));
        assert(cell_fits(s, len as int, c, j));
        let g = s.glyphs@[s.columns@[cx].chars@[y] as int];
        let g2 = s.glyphs@[s.columns@[c].chars@[y2] as int];
        assert(0 <= g.left && 0 <= g2.left);
        cells_lie_apart(cx, c, s.cell_w as int, px);
        cells_lie_apart(y, y2, s.cell_h as int, py);
    }
    pixels_show_the_last_cell_over_them(s, len, cx, k, px, py);
}

/// Whether every pixel of a glyph that covers something, with its corner at `(ox, oy)`, has a column
/// within 32 bits where it is in a row of the picture, and a place in the buffer and a colour within
/// 32 bits where it is in the picture.
pub open spec fn pixels_fit(
    len: int,
    width: int,
    height: int,
    ox: int,
    oy: int,
    g: GlyphBmp,
    r: int,
    gr: int,
    b: int,
) -> bool {
    forall|gx: int, gy: int|
        0 <= gx < g.w && 0 <= gy < g.h && 0 <= oy + gy < height && (#[trigger] g.at(gx, gy)) > 0
            ==> {
            &&& ox + gx <= 0x7fff_ffff
            &&& 0 <= ox + gx < width ==> {
                &&& (oy + gy) * width + ox + gx < len
                &&& r * g.at(gx, gy) <= 0xffff_ffff
                &&& gr * g.at(gx, gy) <= 0xffff_ffff
                &&& b * g.at(gx, gy) <= 0xffff_ffff
            }
        }
}

/// A glyph can be painted if and only if its coverage is that of its size, its rows end within 32
/// bits and its pixels fit.
pub proof fn glyphs_can_be_painted_where_they_fit(
    len: int,
    width: usize,
    height: usize,
    ox: i32,
    oy: i32,
    g: GlyphBmp,
    r: u32,
    gr: u32,
    b: u32,
)
    requires
        width <= i32::MAX,
        height <= i32::MAX,
        g.w <= i32::MAX,
        g.h <= i32::MAX,
    ensures
        blit_fits(len, width, height, ox, oy, g, r, gr, b) <==> g.cov@.len() == g.w * g.h && oy
            + g.h - 1 <= 0x7fff_ffff && pixels_fit(
            len,
            width as int,
            height as int,
            ox as int,
            oy as int,
            g,
            r as int,
            gr as int,
            b as int,
        ),
{
    let w = width as int;
    if blit_fits(len, width, height, ox, oy, g, r, gr, b) {
        assert forall|gx: int, gy: int|
            0 <= gx < g.w && 0 <= gy < g.h && 0 <= oy + gy < height && (#[trigger] g.at(gx, gy))
                > 0 implies {
            &&& ox + gx <= 0x7fff_ffff
            &&& 0 <= ox + gx < width ==> {
                &&& (oy + gy) * w + ox + gx < len
                &&& r * g.at(gx, gy) <= 0xffff_ffff
                &&& gr * g.at(gx, gy) <= 0xffff_ffff
                &&& b * g.at(gx, gy) <= 0xffff_ffff
            }
        } by {
            assert(pixel_fits(len, width, height, ox, oy, g, r, gr, b, gx, gy));
        }
    }
    if pixels_fit(
        len,
        w,
        height as int,
        ox as int,
        oy as int,
        g,
        r as int,
        gr as int,
        b as int,
    ) {
        assert forall|gx: int, gy: int|
            #[trigger]
            pixel_fits(len, width, height, ox, oy, g, r, gr, b, gx, gy) by {
            if in_view(g, height, oy, gx, gy) && g.at(gx, gy) != 0 {
                assert(g.at(gx, gy) > 0);
            }
        }
    }
}

/// Whether the cell `k` above the leader of the column `cx`, if it is in the grid, has a character
/// that stands for a glyph, and the glyph, unless it is empty, can be painted there with its edges
/// within 32 bits.
pub open spec fn cell_has_room(s: Scene<'_>, len: int, cx: int, k: int) -> bool {
    let y = s.heads@[cx] - k;
    0 <= y < s.rows ==> {
        let g = glyph_standing(s, cx, y);
        let x = cx * s.cell_w + g.left;
        let z = y * s.cell_h + g.top;
        &&& y < s.columns@[cx].chars@.len()
        &&& s.columns@[cx].chars@[y] < s.glyphs@.len()
        &&& g.cov@.len() > 0 ==> {
            &&& y * s.cell_h <= 0x7fff_ffff
            &&& -0x8000_0000 <= x <= 0x7fff_ffff
            &&& -0x8000_0000 <= z <= 0x7fff_ffff
            &&& k == 0 ==> blit_fits(
                len,
                s.width,
                s.height,
                x as i32,
                z as i32,
                g,
                s.head.0 as u32,
                s.head.1 as u32,
                s.head.2 as u32,
            )
            &&& k > 0 ==> ({
                let c = s.fades@[cx]@[k - 1];
                blit_fits(len, s.width, s.height, x as i32, z as i32, g, c.0, c.1, c.2)
            })
        }
    }
}

/// Whether a column has its edge within 32 bits, a trail that ends within them, a colour for each cell
/// of it, and room for each of its cells.
pub open spec fn column_has_room(s: Scene<'_>, len: int, cx: int) -> bool {
    &&& cx * s.cell_w <= 0x7fff_ffff
    &&& s.fades@[cx]@.len() >= s.columns@[cx].len
    &&& s.columns@[cx].len >= 0 ==> s.heads@[cx] - s.columns@[cx].len >= -0x8000_0000
    &&& forall|k: int| 0 <= k <= s.columns@[cx].len ==> #[trigger] cell_has_room(s, len, cx, k)
}

proof fn cells_have_room_where_they_fit(s: Scene<'_>, len: int, cx: int, k: int)
    requires
        countable(s),
        0 <= cx < s.columns@.len(),
        0 <= k <= s.columns@[cx].len,
    ensures
        cell_has_room(s, len, cx, k) == cell_fits(s, len, cx, k),
{
    let y = s.heads@[cx] - k;
    if 0 <= y < s.rows {
        assert(y * s.cell_h >= 0) by (nonlinear_arith)
            requires
                y >= 0,
                s.cell_h >= 0,
        ;
    }
}

proof fn columns_have_room_where_they_fit(s: Scene<'_>, len: int, cx: int)
    requires
        countable(s),
        0 <= cx < s.columns@.len(),
    ensures
        column_has_room(s, len, cx) == column_fits(s, len, cx),
{
    assert(cx * s.cell_w >= 0) by (nonlinear_arith)
        requires
            cx >= 0,
            s.cell_w >= 0,
    ;
    if column_has_room(s, len, cx) {
        assert forall|k: int| 0 <= k <= s.columns@[cx].len implies #[trigger] cell_fits(
            s,
            len,
            cx,
            k,
        ) by {
            cells_have_room_where_they_fit(s, len, cx, k);
            assert(cell_has_room(s, len, cx, k));
        }
    }
    if column_fits(s, len, cx) {
        assert forall|k: int| 0 <= k <= s.columns@[cx].len implies #[trigger] cell_has_room(
            s,
            len,
            cx,
            k,
        ) by {
            cells_have_room_where_they_fit(s, len, cx, k);
            assert(cell_fits(s, len, cx, k));
        }
    }
}

/// A scene can be painted if and only if every column has a leader and the colours of a trail, and has
/// room.
pub proof fn scenes_can_be_painted_where_they_fit(s: Scene<'_>, len: int)
    requires
        countable(s),
    ensures
        paintable(s, len) <==> s.heads@.len() == s.columns@.len() && s.fades@.len()
            == s.columns@.len() && forall|cx: int|
            0 <= cx < s.columns@.len() ==> #[trigger] column_has_room(s, len, cx),
{
    assert forall|cx: int| 0 <= cx < s.columns@.len() implies #[trigger] column_has_room(s, len, cx)
        == column_fits(s, len, cx) by {
        columns_have_room_where_they_fit(s, len, cx);
    }
    assert forall|cx: int| 0 <= cx < s.columns@.len() implies #[trigger] column_fits(s, len, cx)
        == column_has_room(s, len, cx) by {
        columns_have_room_where_they_fit(s, len, cx);
    }
}

} // verus!
