//! What holds of every rain.
use vstd::prelude::*;

use crate::encode::png_file;
use crate::frame::{
    black, cell_fits, cells_in, column_fits, columns_off_the_grid_show_nothing, fits, frame_of,
    glyph_in, left_of, painted_cells, painted_columns, paintable, row_of, shown, tone_of, top_of,
};
use crate::frame::{Column, Scene};
use crate::glyph::place_is_within;
use crate::glyph::GlyphBmp;
use crate::paint::{blit_fits, inked, pixel_fits};
use crate::picture::rgb_of;
use crate::rain::{
    cells_across, column_wf, draws_to, first_char, first_entered, first_spawn, laid, len_choices,
    next_spawn, refreshed, respawn, rows_entered, rows_fit, state_at, stepped,
};
use crate::rain::{Rain, Spawn};
use crate::rng::{turns_add_up, xorshift_after};

verus! {

/// A grid fits in the picture, unless the picture is smaller than a cell, and leaves less than a
/// cell uncovered.
pub proof fn grid_covers_the_picture(size: usize, cell: usize)
    requires
        cell > 0,
    ensures
        cells_across(size, cell) >= 1,
        size >= cell ==> cells_across(size, cell) * cell <= size,
        size < (cells_across(size, cell) + 1) * cell,
{
    vstd::arithmetic::div_mod::lemma_fundamental_div_mod(size as int, cell as int);
    vstd::arithmetic::div_mod::lemma_mod_bound(size as int, cell as int);
    let q = size as int / cell as int;
    let c = cells_across(size, cell) as int;
    assert(cell * q == q * cell) by (nonlinear_arith);
    assert((c + 1) * cell == c * cell + cell) by (nonlinear_arith);
    if q == 0 {
        assert(q * cell == 0 && c * cell == cell) by (nonlinear_arith)
            requires
                q == 0,
                c == 1,
        ;
    } else {
        assert(q * cell >= cell) by (nonlinear_arith)
            requires
                q >= 1,
                cell > 0,
        ;
    }
}

/// The larger the cells, the sparser the rain: there are no more of them across a picture.
pub proof fn larger_cells_are_sparser(size: usize, small: usize, large: usize)
    requires
        0 < small <= large,
    ensures
        cells_across(size, large) <= cells_across(size, small),
{
    vstd::arithmetic::div_mod::lemma_div_is_ordered_by_denominator(
        size as int,
        small as int,
        large as int,
    );
}

/// How the columns of a new grid start: between the least and the greatest speed, with a trail of
/// six or more, and with the leader in the first row or above it, by less than the grid is high.
pub proof fn new_columns_start_above(s: u64, rows: usize, c: int)
    requires
        0 < rows <= u32::MAX,
        rows_fit(rows),
    ensures
        first_spawn(s, rows, c).speed < 0x100_0000,
        6 <= first_spawn(s, rows, c).len < 6 + len_choices(rows as u32),
        first_spawn(s, rows, c).drop < rows,
{
    fraction_is_below_one(
        xorshift_after(s, crate::rain::draws_before(c, rows as int) + rows as nat + 1),
    );
}

proof fn fraction_is_below_one(x: u64)
    ensures
        crate::rng::draw_frac(x) < 0x100_0000,
{
    assert(x >> 40 < 0x100_0000u64) by (bit_vector);
}

/// The row of the leader of a column that has just started anew.
pub open spec fn restart_row(spawn: Spawn) -> int {
    -(spawn.drop as int) - spawn.len
}

/// A column that starts anew is still wholly above the grid: six rows or more, and no more than the
/// grid's height besides its trail.
pub proof fn restarted_columns_are_out_of_sight(s: u64, rows: usize)
    requires
        rows < i32::MAX,
        rows_fit(rows),
    ensures
        next_spawn(s, rows).speed < 0x100_0000,
        6 <= next_spawn(s, rows).len < 6 + len_choices(rows as u32),
        next_spawn(s, rows).drop <= rows,
        restart_row(next_spawn(s, rows)) <= -6,
{
    fraction_is_below_one(xorshift_after(s, 1));
}

/// A column starts anew only when its whole trail has left the grid, so what it showed last is
/// nothing.
pub proof fn columns_restart_unseen(
    buf: Seq<u32>,
    scene: Scene<'_>,
    cx: int,
    m: (i32, i32),
    s: u64,
)
    requires
        scene.heads@[cx] == m.1,
        respawn(scene.columns@[cx].len, scene.rows, m, s) is Some,
    ensures
        painted_cells(buf, scene, cx, cells_in(scene, cx)) == buf,
{
    columns_off_the_grid_show_nothing(buf, scene, cx, cells_in(scene, cx));
}

/// A leader changes the characters of the rows that it enters and no others.
pub proof fn only_entered_rows_change(
    chars: Seq<u8>,
    s: u64,
    n: u32,
    rows: usize,
    from: i32,
    to: i32,
    y: int,
)
    requires
        0 <= y < chars.len(),
        !(from < y <= to),
    ensures
        refreshed(chars, s, n, rows, from, to)[y] == chars[y],
{
}

/// A leader that enters no row changes nothing and takes no draw.
pub proof fn resting_leaders_change_nothing(
    chars: Seq<u8>,
    s: u64,
    n: u32,
    rows: usize,
    from: i32,
    to: i32,
)
    requires
        to <= from,
    ensures
        refreshed(chars, s, n, rows, from, to) == chars,
        rows_entered(rows, from, to) == 0,
{
    assert(refreshed(chars, s, n, rows, from, to) =~= chars);
}

/// A column on its own ends up with the same characters whether its leader falls in one move or in
/// two.
pub proof fn moves_add_up(
    chars: Seq<u8>,
    s: u64,
    n: u32,
    rows: usize,
    a: i32,
    b: i32,
    c: i32,
)
    requires
        a <= b <= c,
        b < i32::MAX,
        0 <= rows as i32,
        chars.len() == rows as i32,
    ensures
        refreshed(
            refreshed(chars, s, n, rows, a, b),
            xorshift_after(s, rows_entered(rows, a, b)),
            n,
            rows,
            b,
            c,
        ) == refreshed(chars, s, n, rows, a, c),
        rows_entered(rows, a, c) == rows_entered(rows, a, b) + rows_entered(rows, b, c),
{
    let m = rows_entered(rows, a, b);
    let once = refreshed(chars, s, n, rows, a, c);
    let half = refreshed(chars, s, n, rows, a, b);
    let twice = refreshed(half, xorshift_after(s, m), n, rows, b, c);
    assert forall|y: int| 0 <= y < chars.len() implies once[y] == twice[y] by {
        if first_entered(b) <= y < first_entered(b) + rows_entered(rows, b, c) {
            turns_add_up(s, m, (y - first_entered(b) + 1) as nat);
        }
    }
    assert(once =~= twice);
}

/// Whether every number that a frame of this scene counts with is far from the limits of 32 bits,
/// its glyphs have their coverage, its colours are bytes and its buffer of `len` pixels holds the
/// picture.
pub open spec fn ordinary(s: Scene<'_>, len: int) -> bool {
    &&& s.width * s.height <= len
    &&& s.heads@.len() == s.columns@.len()
    &&& s.fades@.len() == s.columns@.len()
    &&& s.columns@.len() <= 0x4000
    &&& s.rows <= 0x4000
    &&& s.cell_w <= 0x4000
    &&& s.cell_h <= 0x4000
    &&& forall|i: int|
        0 <= i < s.glyphs@.len() ==> {
            &&& (#[trigger] s.glyphs@[i]).wf()
            &&& s.glyphs@[i].w <= 0x4000
            &&& s.glyphs@[i].h <= 0x4000
            &&& -0x4000 <= s.glyphs@[i].left <= 0x4000
            &&& -0x4000 <= s.glyphs@[i].top <= 0x4000
        }
    &&& forall|cx: int|
        0 <= cx < s.columns@.len() ==> {
            &&& (#[trigger] s.fades@[cx])@.len() == s.columns@[cx].len
            &&& fits(s.heads@[cx] - s.columns@[cx].len)
            &&& forall|k: int|
                0 <= k < s.fades@[cx]@.len() ==> (#[trigger] s.fades@[cx]@[k]).0 <= 255
                    && s.fades@[cx]@[k].1 <= 255 && s.fades@[cx]@[k].2 <= 255
        }
}

proof fn ordinary_glyphs_fit(
    len: int,
    width: usize,
    height: usize,
    ox: i32,
    oy: i32,
    g: GlyphBmp,
    r: u32,
    gr: u32,
    b: u32,
)
    requires
        g.wf(),
        width * height <= len,
        g.w <= 0x4000,
        g.h <= 0x4000,
        ox <= 0x2000_0000,
        oy <= 0x2000_0000,
        r <= 255,
        gr <= 255,
        b <= 255,
    ensures
        blit_fits(len, width, height, ox, oy, g, r, gr, b),
{
    assert forall|gx: int, gy: int|
        #[trigger]
        pixel_fits(len, width, height, ox, oy, g, r, gr, b, gx, gy) by {
        if inked(g, width, height, ox, oy, gx, gy) {
            crate::paint::signed_is_no_more(width);
            crate::paint::signed_is_no_more(height);
            place_is_within(width as int, height as int, ox + gx, oy + gy);
            let a = g.at(gx, gy);
            assert(r * a <= 255 * 255 && gr * a <= 255 * 255 && b * a <= 255 * 255)
                by (nonlinear_arith)
                requires
                    r <= 255,
                    gr <= 255,
                    b <= 255,
                    a <= 255,
            ;
        }
    }
}

/// Rain can always be painted: in every grid that is kept in order, whatever was drawn, every
/// character stands for a glyph, and no glyph reaches past the buffer.
pub proof fn rain_can_be_painted(s: Scene<'_>, len: int)
    requires
        ordinary(s, len),
        forall|cx: int|
            0 <= cx < s.columns@.len() ==> #[trigger] column_wf(
                s.columns@[cx],
                s.rows,
                s.glyphs@.len(),
            ),
    ensures
        paintable(s, len),
{
    assert forall|cx: int| 0 <= cx < s.columns@.len() implies #[trigger] column_fits(s, len, cx) by {
        assert(column_wf(s.columns@[cx], s.rows, s.glyphs@.len()));
        assert(s.fades@[cx]@.len() == s.columns@[cx].len);
        assert(0 <= left_of(s, cx) <= 0x4000 * 0x4000) by (nonlinear_arith)
            requires
                left_of(s, cx) == cx * s.cell_w,
                0 <= cx <= 0x4000,
                0 <= s.cell_w <= 0x4000,
        ;
        assert forall|k: int| 0 <= k <= s.columns@[cx].len implies #[trigger] cell_fits(
            s,
            len,
            cx,
            k,
        ) by {
            if shown(s, cx, k) {
                let y = row_of(s, cx, k);
                assert(s.columns@[cx].chars@[y] < s.glyphs@.len());
                let g = glyph_in(s, cx, k);
                assert(g.wf());
                assert(0 <= top_of(s, cx, k) <= 0x4000 * 0x4000) by (nonlinear_arith)
                    requires
                        top_of(s, cx, k) == y * s.cell_h,
                        0 <= y <= 0x4000,
                        0 <= s.cell_h <= 0x4000,
                ;
                let tone = tone_of(s, cx, k);
                assert(tone.0 <= 255 && tone.1 <= 255 && tone.2 <= 255) by {
                    if k > 0 {
                        assert(s.fades@[cx]@[k - 1].0 <= 255);
                    }
                }
                ordinary_glyphs_fit(
                    len,
                    s.width,
                    s.height,
                    (left_of(s, cx) + g.left) as i32,
                    (top_of(s, cx, k) + g.top) as i32,
                    g,
                    tone.0,
                    tone.1,
                    tone.2,
                );
            }
        }
    }
}

/// Whether two sets of glyphs are the same.
pub open spec fn same_glyphs(a: Seq<GlyphBmp>, b: Seq<GlyphBmp>) -> bool {
    &&& a.len() == b.len()
    &&& forall|i: int|
        0 <= i < a.len() ==> {
            &&& (#[trigger] a[i]).w == b[i].w
            &&& a[i].h == b[i].h
            &&& a[i].left == b[i].left
            &&& a[i].top == b[i].top
            &&& a[i].cov@ == b[i].cov@
        }
}

/// Whether two grids have the same columns.
pub open spec fn same_columns(a: Seq<Column>, b: Seq<Column>) -> bool {
    &&& a.len() == b.len()
    &&& forall|i: int|
        0 <= i < a.len() ==> (#[trigger] a[i]).len == b[i].len && a[i].chars@ == b[i].chars@
}

/// Whether two rains are the same, the state of their generators included.
pub open spec fn same_rain(a: Rain, b: Rain) -> bool {
    &&& same_glyphs(a.glyphs@, b.glyphs@)
    &&& a.cell_w == b.cell_w
    &&& a.cell_h == b.cell_h
    &&& a.cols == b.cols
    &&& a.rows == b.rows
    &&& same_columns(a.columns@, b.columns@)
    &&& a.rng@ == b.rng@
    &&& a.inited_grid == b.inited_grid
}

/// What a new grid is like depends on the size of the picture, the size of the cells, the number of
/// glyphs and the generator alone, not on the grid before it. Each column takes a draw for each row
/// and three more.
pub proof fn same_size_makes_the_same_grid(
    a: Rain,
    b: Rain,
    width: usize,
    height: usize,
    a2: Rain,
    b2: Rain,
    r: Seq<Spawn>,
    q: Seq<Spawn>,
)
    requires
        a.rng@ == b.rng@,
        a.cell_w == b.cell_w,
        a.cell_h == b.cell_h,
        a.glyphs@.len() == b.glyphs@.len(),
        laid(a, width, height, a2, r),
        laid(b, width, height, b2, q),
    ensures
        a2.cols == b2.cols,
        a2.rows == b2.rows,
        same_columns(a2.columns@, b2.columns@),
        a2.rng@ == b2.rng@,
        a2.rng@ == xorshift_after(a.rng@, (a2.cols * (a2.rows + 3)) as nat),
        r == q,
{
    assert(r =~= q) by {
        assert forall|c: int| 0 <= c < r.len() implies r[c] == q[c] by {
            assert(r[c] == first_spawn(a.rng@, a2.rows, c));
            assert(q[c] == first_spawn(b.rng@, b2.rows, c));
        }
    }
    assert forall|c: int| 0 <= c < a2.columns@.len() implies (#[trigger] a2.columns@[c]).len
        == b2.columns@[c].len && a2.columns@[c].chars@ == b2.columns@[c].chars@ by {
        assert(column_wf(a2.columns@[c], a2.rows, a2.glyphs@.len()));
        assert(column_wf(b2.columns@[c], b2.rows, b2.glyphs@.len()));
        assert(b2.columns@[c].len == q[c].len);
        assert forall|y: int| 0 <= y < a2.rows implies a2.columns@[c].chars@[y]
            == b2.columns@[c].chars@[y] by {
            assert(a2.columns@[c].chars@[y] == first_char(
                a.rng@,
                a.glyphs@.len() as u32,
                a2.rows,
                c,
                y,
            ));
            assert(b2.columns@[c].chars@[y] == first_char(
                b.rng@,
                b.glyphs@.len() as u32,
                b2.rows,
                c,
                y,
            ));
        }
        assert(a2.columns@[c].chars@ =~= b2.columns@[c].chars@);
    }
}

proof fn same_columns_take_the_same_draws(
    a: Seq<Column>,
    b: Seq<Column>,
    rows: usize,
    moves: Seq<(i32, i32)>,
    i: nat,
)
    requires
        same_columns(a, b),
        i <= a.len(),
    ensures
        draws_to(a, rows, moves, i) == draws_to(b, rows, moves, i),
    decreases i,
{
    if i > 0 {
        same_columns_take_the_same_draws(a, b, rows, moves, (i - 1) as nat);
        assert(a[i - 1].len == b[i - 1].len);
    }
}

/// The same rain stays the same through the same moves, and the same columns start anew in the same
/// way.
pub proof fn same_moves_make_the_same_rain(
    a: Rain,
    b: Rain,
    moves: Seq<(i32, i32)>,
    a2: Rain,
    b2: Rain,
    r: Seq<Option<Spawn>>,
    q: Seq<Option<Spawn>>,
)
    requires
        same_rain(a, b),
        a.wf(),
        b.wf(),
        moves.len() == a.columns@.len(),
        stepped(a, moves, a2, r),
        stepped(b, moves, b2, q),
    ensures
        same_rain(a2, b2),
        r == q,
{
    assert forall|i: nat| i <= moves.len() implies #[trigger] draws_to(
        a.columns@,
        a.rows,
        moves,
        i,
    ) == draws_to(b.columns@, b.rows, moves, i) by {
        same_columns_take_the_same_draws(a.columns@, b.columns@, a.rows, moves, i);
    }
    assert forall|i: int| 0 <= i < r.len() implies r[i] == q[i] by {
        assert(a.columns@[i].len == b.columns@[i].len);
        assert(r[i] == respawn(
            a.columns@[i].len,
            a.rows,
            moves[i],
            state_at(a.columns@, a.rows, moves, a.rng@, i as nat),
        ));
    }
    assert(r =~= q);
    assert forall|i: int| 0 <= i < a2.columns@.len() implies (#[trigger] a2.columns@[i]).len
        == b2.columns@[i].len && a2.columns@[i].chars@ == b2.columns@[i].chars@ by {
        assert(a.columns@[i].len == b.columns@[i].len);
        assert(b2.columns@[i].len == match q[i] {
            Some(spawn) => spawn.len,
            None => b.columns@[i].len,
        });
    }
}

/// Whether two scenes have the same size, leaders and colours.
pub open spec fn same_setting(s: Scene<'_>, t: Scene<'_>) -> bool {
    &&& s.width == t.width
    &&& s.height == t.height
    &&& s.heads@ == t.heads@
    &&& s.fades@.len() == t.fades@.len()
    &&& forall|i: int| 0 <= i < s.fades@.len() ==> (#[trigger] s.fades@[i])@ == t.fades@[i]@
    &&& s.head == t.head
}

/// Whether two scenes show the same.
pub open spec fn same_scene(s: Scene<'_>, t: Scene<'_>) -> bool {
    &&& same_setting(s, t)
    &&& same_glyphs(s.glyphs@, t.glyphs@)
    &&& same_columns(s.columns@, t.columns@)
    &&& s.cell_w == t.cell_w
    &&& s.cell_h == t.cell_h
    &&& s.rows == t.rows
}

proof fn same_cells_are_painted_alike(
    buf: Seq<u32>,
    s: Scene<'_>,
    t: Scene<'_>,
    len: int,
    cx: int,
    n: nat,
)
    requires
        same_scene(s, t),
        paintable(s, len),
        0 <= cx < s.columns@.len(),
        n <= cells_in(s, cx),
    ensures
        painted_cells(buf, s, cx, n) == painted_cells(buf, t, cx, n),
    decreases n,
{
    if n > 0 {
        let k = n - 1;
        same_cells_are_painted_alike(buf, s, t, len, cx, k as nat);
        assert(column_fits(s, len, cx));
        assert(cell_fits(s, len, cx, k));
        assert(s.columns@[cx].len == t.columns@[cx].len);
        assert(s.columns@[cx].chars@ == t.columns@[cx].chars@);
        assert(s.fades@[cx]@ == t.fades@[cx]@);
        if shown(s, cx, k) {
            let at = s.columns@[cx].chars@[row_of(s, cx, k)] as int;
            assert(glyph_in(s, cx, k) == s.glyphs@[at]);
            assert(glyph_in(t, cx, k) == t.glyphs@[at]);
            assert(s.glyphs@[at].cov@ == t.glyphs@[at].cov@);
            assert(painted_cells(buf, s, cx, n) =~= painted_cells(buf, t, cx, n));
        }
    }
}

proof fn same_columns_are_painted_alike(
    buf: Seq<u32>,
    s: Scene<'_>,
    t: Scene<'_>,
    len: int,
    n: nat,
)
    requires
        same_scene(s, t),
        paintable(s, len),
        n <= s.columns@.len(),
    ensures
        painted_columns(buf, s, n) == painted_columns(buf, t, n),
    decreases n,
{
    if n > 0 {
        same_columns_are_painted_alike(buf, s, t, len, (n - 1) as nat);
        assert(s.columns@[n - 1].len == t.columns@[n - 1].len);
        same_cells_are_painted_alike(
            painted_columns(buf, s, (n - 1) as nat),
            s,
            t,
            len,
            n - 1,
            cells_in(s, n - 1),
        );
    }
}

/// Scenes that show the same give the same frame, and so the same picture file.
pub proof fn same_scene_makes_the_same_picture(s: Scene<'_>, t: Scene<'_>, len: nat)
    requires
        same_scene(s, t),
        paintable(s, len as int),
    ensures
        frame_of(s, len) == frame_of(t, len),
        forall|width: u32, height: u32|
            #[trigger]
            png_file(width, height, rgb_of(frame_of(s, len))) == png_file(
                width,
                height,
                rgb_of(frame_of(t, len)),
            ),
{
    same_columns_are_painted_alike(black(len), s, t, len as int, s.columns@.len());
}

/// Whether the rains follow one another by these moves, the columns starting anew as `spawns` says.
pub open spec fn follows(
    rains: Seq<Rain>,
    moves: Seq<Seq<(i32, i32)>>,
    spawns: Seq<Seq<Option<Spawn>>>,
) -> bool {
    &&& rains.len() == moves.len() + 1
    &&& spawns.len() == moves.len()
    &&& forall|i: int|
        0 <= i < moves.len() ==> {
            &&& rains[i].wf()
            &&& (#[trigger] moves[i]).len() == rains[i].columns@.len()
            &&& stepped(rains[i], moves[i], rains[i + 1], spawns[i])
        }
}

proof fn same_moves_keep_rains_the_same(
    a: Seq<Rain>,
    b: Seq<Rain>,
    moves: Seq<Seq<(i32, i32)>>,
    r: Seq<Seq<Option<Spawn>>>,
    q: Seq<Seq<Option<Spawn>>>,
    n: int,
)
    requires
        follows(a, moves, r),
        follows(b, moves, q),
        same_rain(a[0], b[0]),
        0 <= n <= moves.len(),
    ensures
        same_rain(a[n], b[n]),
        forall|i: int| 0 <= i < n ==> r[i] == q[i],
    decreases n,
{
    if n > 0 {
        same_moves_keep_rains_the_same(a, b, moves, r, q, n - 1);
        assert(moves[n - 1].len() == a[n - 1].columns@.len());
        same_moves_make_the_same_rain(
            a[n - 1],
            b[n - 1],
            moves[n - 1],
            a[n],
            b[n],
            r[n - 1],
            q[n - 1],
        );
    }
}

/// Whether a scene shows this rain.
pub open spec fn shows(s: Scene<'_>, rain: Rain) -> bool {
    &&& *s.glyphs == rain.glyphs
    &&& *s.columns == rain.columns
    &&& s.cell_w == rain.cell_w
    &&& s.cell_h == rain.cell_h
    &&& s.rows == rain.rows
}

/// A whole run repeats: rain with the same glyphs, cells and generator, laid over a picture of the
/// same size and moved by the same list of moves, starts its columns in the same way throughout, and
/// a picture of it at the end is the same.
pub proof fn the_same_run_makes_the_same_picture(
    a: Rain,
    b: Rain,
    width: usize,
    height: usize,
    a_rains: Seq<Rain>,
    b_rains: Seq<Rain>,
    a_first: Seq<Spawn>,
    b_first: Seq<Spawn>,
    moves: Seq<Seq<(i32, i32)>>,
    a_spawns: Seq<Seq<Option<Spawn>>>,
    b_spawns: Seq<Seq<Option<Spawn>>>,
    s: Scene<'_>,
    t: Scene<'_>,
    len: nat,
)
    requires
        same_glyphs(a.glyphs@, b.glyphs@),
        a.cell_w == b.cell_w,
        a.cell_h == b.cell_h,
        a.rng@ == b.rng@,
        follows(a_rains, moves, a_spawns),
        follows(b_rains, moves, b_spawns),
        laid(a, width, height, a_rains[0], a_first),
        laid(b, width, height, b_rains[0], b_first),
        shows(s, a_rains.last()),
        shows(t, b_rains.last()),
        same_setting(s, t),
        paintable(s, len as int),
    ensures
        a_first == b_first,
        a_spawns == b_spawns,
        same_rain(a_rains.last(), b_rains.last()),
        frame_of(s, len) == frame_of(t, len),
        forall|w: u32, h: u32|
            #[trigger]
            png_file(w, h, rgb_of(frame_of(s, len))) == png_file(w, h, rgb_of(frame_of(t, len))),
{
    same_size_makes_the_same_grid(
        a,
        b,
        width,
        height,
        a_rains[0],
        b_rains[0],
        a_first,
        b_first,
    );
    assert(same_rain(a_rains[0], b_rains[0]));
    same_moves_keep_rains_the_same(
        a_rains,
        b_rains,
        moves,
        a_spawns,
        b_spawns,
        moves.len() as int,
    );
    assert(a_spawns =~= b_spawns);
    same_scene_makes_the_same_picture(s, t, len);
}

} // verus!
