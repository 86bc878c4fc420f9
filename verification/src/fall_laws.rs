//! What becomes of every column: which draws fill it, when it starts anew and how.
use vstd::prelude::*;

use crate::frame::Column;
use crate::rain::{
    column_wf, draws_before, draws_for, draws_to, first_char, first_entered, first_spawn, laid,
    moves_fit, next_spawn, refreshed, respawn, rows_entered, rows_fit, state_at, stepped,
};
use crate::rain::{Rain, Spawn};
use crate::rain_laws::grid_covers_the_picture;
use crate::rng::{turns_add_up, xorshift_after};

verus! {

/// The greater of two numbers.
pub open spec fn greater(a: int, b: int) -> int {
    if a < b {
        b
    } else {
        a
    }
}

/// How many of the rows `0..rows` lie below the row `from` and not below the row `to`.
pub open spec fn rows_between(rows: int, from: int, to: int) -> int {
    let last = if to < rows {
        to
    } else {
        rows - 1
    };
    greater(last - greater(from, -1), 0)
}

/// A draw, counted from the state `s` as the first, reduced to `0..n`.
pub open spec fn drawn(s: u64, nth: int, n: int) -> int {
    xorshift_after(s, nth as nat) as int % n
}

/// Whether a column starts with what three draws after the state `s` give: one for the speed, and
/// two for the length of the trail and for how far above the grid the leader starts.
pub open spec fn starts_with(
    spawn: Spawn,
    s: u64,
    speed: int,
    len: int,
    drop: int,
    rows: int,
    drops: int,
) -> bool {
    &&& spawn.speed == xorshift_after(s, speed as nat) / 0x100_0000_0000
    &&& spawn.len == 6 + drawn(s, len, greater(rows / 2, 7))
    &&& spawn.drop == drawn(s, drop, drops)
}

proof fn the_top_of_a_state(x: u64)
    ensures
        crate::rng::draw_frac(x) == x / 0x100_0000_0000,
{
    assert(x >> 40 == x / 0x100_0000_0000) by (bit_vector);
}

proof fn bytes_of_draws(x: u64, n: u32)
    requires
        n > 0,
    ensures
        crate::rain::char_from(x, n) == x as int % n as int % 0x100,
{
    let d = (x % (n as u64)) as u32;
    assert(d as u8 == d % 0x100) by (bit_vector);
}

/// A new grid has as many columns and rows of cells as fit, at least one of each. Its columns are
/// filled from the left and each from the top, a draw for each character, and after the characters
/// of a column come three draws for its speed, for how far above the first row its leader starts and
/// for the length of its trail.
pub proof fn new_grids_are_filled_in_order(
    before: Rain,
    width: usize,
    height: usize,
    after: Rain,
    spawns: Seq<Spawn>,
)
    requires
        before.wf(),
        laid(before, width, height, after, spawns),
        after.rows <= i32::MAX,
    ensures
        after.glyphs == before.glyphs,
        after.cell_w == before.cell_w,
        after.cell_h == before.cell_h,
        after.inited_grid,
        after.cols >= 1,
        after.rows >= 1,
        width >= before.cell_w ==> after.cols * before.cell_w <= width,
        width < (after.cols + 1) * before.cell_w,
        height >= before.cell_h ==> after.rows * before.cell_h <= height,
        height < (after.rows + 1) * before.cell_h,
        spawns.len() == after.cols,
        after.columns@.len() == after.cols,
        after.rng@ == xorshift_after(before.rng@, (after.cols * (after.rows + 3)) as nat),
        forall|c: int|
            0 <= c < after.cols ==> {
                let first = c * (after.rows + 3);
                &&& (#[trigger] after.columns@[c]).chars@.len() == after.rows
                &&& after.columns@[c].len == spawns[c].len
                &&& starts_with(
                    spawns[c],
                    before.rng@,
                    first + after.rows + 1,
                    first + after.rows + 3,
                    first + after.rows + 2,
                    after.rows as int,
                    after.rows as int,
                )
            },
        forall|c: int, y: int|
            0 <= c < after.cols && 0 <= y < after.rows ==> #[trigger] after.columns@[c].chars@[y]
                == drawn(
                before.rng@,
                c * (after.rows + 3) + y + 1,
                before.glyphs@.len() as int,
            ) % 0x100,
{
    grid_covers_the_picture(width, before.cell_w);
    grid_covers_the_picture(height, before.cell_h);
    let s = before.rng@;
    let rows = after.rows;
    assert forall|c: int| 0 <= c < after.cols implies {
        let first = c * (rows + 3);
        &&& (#[trigger] after.columns@[c]).chars@.len() == rows
        &&& after.columns@[c].len == spawns[c].len
        &&& starts_with(
            spawns[c],
            s,
            first + rows + 1,
            first + rows + 3,
            first + rows + 2,
            rows as int,
            rows as int,
        )
    } by {
        assert(column_wf(after.columns@[c], rows, after.glyphs@.len()));
        assert(spawns[c] == first_spawn(s, rows, c));
        let first = c * (rows + 3);
        assert(first >= 0) by (nonlinear_arith)
            requires
                first == c * (rows + 3),
                c >= 0,
                rows >= 0,
        ;
        let k = draws_before(c, rows as int) + rows as nat;
        the_top_of_a_state(xorshift_after(s, k + 1));
        assert(k + 1 == (first + rows + 1) as nat);
        assert(k + 2 == (first + rows + 2) as nat);
        assert(k + 3 == (first + rows + 3) as nat);
        assert(rows as u32 == rows);
    }
    assert forall|c: int, y: int|
        0 <= c < after.cols && 0 <= y < rows implies #[trigger] after.columns@[c].chars@[y]
        == drawn(s, c * (rows + 3) + y + 1, before.glyphs@.len() as int) % 0x100 by {
        assert(c * (rows + 3) >= 0) by (nonlinear_arith)
            requires
                c >= 0,
                rows >= 0,
        ;
        let x = xorshift_after(s, (draws_before(c, rows as int) + y + 1) as nat);
        bytes_of_draws(x, before.glyphs@.len() as u32);
        assert(after.columns@[c].chars@[y] == first_char(
            s,
            before.glyphs@.len() as u32,
            rows,
            c,
            y,
        ));
    }
}

/// A grid of as many rows as 32 bits count can be laid unless half of them, as the length of a trail
/// and six more, are too many for a sign.
pub proof fn grids_fit_while_half_their_rows_do(rows: usize)
    requires
        rows <= u32::MAX,
    ensures
        rows_fit(rows) <==> rows as int / 2 <= 0x7fff_fffa,
{
}

/// Columns can move wherever rows are counted within 32 bits: a leader that is not in the last row
/// that can be counted moves to any row from which the whole trail can still be counted.
pub proof fn counted_rows_can_be_reached(columns: Seq<Column>, moves: Seq<(i32, i32)>)
    requires
        moves.len() == columns.len(),
    ensures
        (forall|i: int|
            0 <= i < moves.len() ==> (#[trigger] moves[i]).0 < 0x7fff_ffff && moves[i].1
                - columns[i].len >= -0x8000_0000) <==> moves_fit(columns, moves),
{
}

/// A column starts anew in exactly those steps after which its whole trail is below the grid: the
/// row of the leader, less the length of the trail, is more than the number of rows. Its trail then
/// has the new length, and otherwise keeps the one it has.
pub proof fn columns_start_anew_once_they_have_left(
    before: Rain,
    moves: Seq<(i32, i32)>,
    after: Rain,
    spawns: Seq<Option<Spawn>>,
    i: int,
)
    requires
        stepped(before, moves, after, spawns),
        before.rows <= i32::MAX,
        0 <= i < moves.len(),
    ensures
        spawns[i] is Some <==> moves[i].1 - before.columns@[i].len > before.rows,
        spawns[i] matches Some(spawn) ==> after.columns@[i].len == spawn.len,
        spawns[i] is None ==> after.columns@[i].len == before.columns@[i].len,
{
    assert(spawns[i] == respawn(
        before.columns@[i].len,
        before.rows,
        moves[i],
        state_at(before.columns@, before.rows, moves, before.rng@, i as nat),
    ));
}

/// Whether a column that moves as `m` says takes the generator from the state `s` to `t`: a draw for
/// the character of each row that the leader enters, from the top, and if the column then starts
/// anew three more, for its speed, for its length and for how far above the grid it starts.
pub open spec fn falls(
    before: Column,
    m: (i32, i32),
    after: Column,
    spawn: Option<Spawn>,
    rows: int,
    n: int,
    s: u64,
    t: u64,
) -> bool {
    let entered = rows_between(rows, m.0 as int, m.1 as int);
    &&& after.chars@.len() == before.chars@.len()
    &&& forall|y: int|
        0 <= y < rows ==> #[trigger] after.chars@[y] == if m.0 < y <= m.1 {
            drawn(s, y - greater(m.0 as int, -1), n) % 0x100
        } else {
            before.chars@[y] as int
        }
    &&& match spawn {
        Some(spawn) => {
            &&& after.len == spawn.len
            &&& starts_with(spawn, s, entered + 1, entered + 2, entered + 3, rows, rows + 1)
            &&& t == xorshift_after(s, (entered + 3) as nat)
        },
        None => after.len == before.len && t == xorshift_after(s, entered as nat),
    }
}

/// In a step the columns take their draws one after another, from the left. The states of the
/// generator before the first, between them and after the last are handed back.
pub proof fn columns_take_turns(
    before: Rain,
    moves: Seq<(i32, i32)>,
    after: Rain,
    spawns: Seq<Option<Spawn>>,
) -> (states: Seq<u64>)
    requires
        before.wf(),
        stepped(before, moves, after, spawns),
        moves.len() == before.columns@.len(),
        before.rows <= i32::MAX,
    ensures
        after.glyphs == before.glyphs,
        after.cell_w == before.cell_w,
        after.cell_h == before.cell_h,
        after.cols == before.cols,
        after.rows == before.rows,
        after.inited_grid == before.inited_grid,
        after.columns@.len() == before.columns@.len(),
        spawns.len() == moves.len(),
        states.len() == moves.len() + 1,
        states[0] == before.rng@,
        states[moves.len() as int] == after.rng@,
        forall|i: int|
            0 <= i < moves.len() ==> falls(
                before.columns@[i],
                #[trigger] moves[i],
                after.columns@[i],
                spawns[i],
                before.rows as int,
                before.glyphs@.len() as int,
                states[i],
                states[i + 1],
            ),
{
    let rows = before.rows;
    let states = Seq::new(
        moves.len() + 1,
        |i: int| state_at(before.columns@, rows, moves, before.rng@, i as nat),
    );
    assert forall|i: int| 0 <= i < moves.len() implies falls(
        before.columns@[i],
        #[trigger] moves[i],
        after.columns@[i],
        spawns[i],
        rows as int,
        before.glyphs@.len() as int,
        states[i],
        states[i + 1],
    ) by {
        assert(column_wf(before.columns@[i], rows, before.glyphs@.len()));
        assert(after.columns@[i].len == match spawns[i] {
            Some(spawn) => spawn.len,
            None => before.columns@[i].len,
        });
        column_falls(
            before.columns@[i],
            moves[i],
            after.columns@[i],
            spawns[i],
            rows,
            before.glyphs@.len() as u32,
            states[i],
        );
        turns_add_up(
            before.rng@,
            draws_to(before.columns@, rows, moves, i as nat),
            draws_for(before.columns@[i].len, rows, moves[i]),
        );
    }
    states
}

proof fn column_falls(
    before: Column,
    m: (i32, i32),
    after: Column,
    spawn: Option<Spawn>,
    rows: usize,
    n: u32,
    s: u64,
)
    requires
        rows <= i32::MAX,
        n > 0,
        before.chars@.len() == rows,
        spawn == respawn(before.len, rows, m, s),
        after.chars@ == refreshed(before.chars@, s, n, rows, m.0, m.1),
        after.len == match spawn {
            Some(spawn) => spawn.len,
            None => before.len,
        },
    ensures
        falls(
            before,
            m,
            after,
            spawn,
            rows as int,
            n as int,
            s,
            xorshift_after(s, draws_for(before.len, rows, m)),
        ),
{
    let entered = rows_entered(rows, m.0, m.1);
    assert(entered == rows_between(rows as int, m.0 as int, m.1 as int));
    assert forall|y: int| 0 <= y < rows implies #[trigger] after.chars@[y] == if m.0 < y <= m.1 {
        drawn(s, y - greater(m.0 as int, -1), n as int) % 0x100
    } else {
        before.chars@[y] as int
    } by {
        if m.0 < y <= m.1 {
            bytes_of_draws(xorshift_after(s, (y - first_entered(m.0) + 1) as nat), n);
            assert(y - first_entered(m.0) + 1 == y - greater(m.0 as int, -1));
        }
    }
    if spawn is Some {
        turns_add_up(s, entered, 1);
        turns_add_up(s, entered, 2);
        turns_add_up(s, entered, 3);
        the_top_of_a_state(xorshift_after(s, entered + 1));
        assert(rows as i32 as u32 == rows);
        assert(spawn == Some(next_spawn(xorshift_after(s, entered), rows)));
    }
}

} // verus!
