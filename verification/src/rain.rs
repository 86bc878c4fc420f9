//! The rain: a grid of columns that fall and start anew.
use vstd::prelude::*;

use crate::frame::Column;
use crate::glyph::GlyphBmp;
use crate::rng::{draw_below, draw_frac, turns_add_up, xorshift, xorshift_after};
use crate::rng::Rng;

verus! {

/// The state that the generator starts from.
pub const SEED: u64 = 0x9E37_79B9_7F4A_7C15;

/// How a column starts to fall.
#[derive(Clone, Copy, Debug, PartialEq, Eq, Structural)]
pub struct Spawn {
    /// Where its speed lies between the least and the greatest, in parts of 2^24.
    pub speed: u32,
    /// How many rows above the first its leader starts, besides what else lifts it.
    pub drop: u32,
    /// The length of its trail.
    pub len: i32,
}

/// The rain.
pub struct Rain {
    /// The glyphs, one for each character.
    pub glyphs: Vec<GlyphBmp>,
    /// Width of a cell in pixels.
    pub cell_w: usize,
    /// Height of a cell in pixels.
    pub cell_h: usize,
    /// Columns of the grid.
    pub cols: usize,
    /// Rows of the grid.
    pub rows: usize,
    /// The columns, from the left.
    pub columns: Vec<Column>,
    /// The generator.
    pub rng: Rng,
    /// Whether there is a grid.
    pub inited_grid: bool,
}

/// How many cells of `cell` pixels fit in `size` pixels, and at least one.
pub open spec fn cells_across(size: usize, cell: usize) -> usize {
    if size / cell == 0 {
        1
    } else {
        size / cell
    }
}

/// The number of trail lengths there are to choose from in a grid of `rows` rows.
pub open spec fn len_choices(rows: u32) -> u32 {
    if rows / 2 < 7 {
        7
    } else {
        rows / 2
    }
}

/// Whether every trail length for a grid of `rows` rows fits in 32 bits with its sign.
pub open spec fn rows_fit(rows: usize) -> bool {
    6 + len_choices(rows as u32) - 1 <= i32::MAX
}

/// A column of a grid of `rows` rows with `n` glyphs: a character in each row that stands for a
/// glyph, and a trail of at least six.
pub open spec fn column_wf(c: Column, rows: usize, n: nat) -> bool {
    &&& c.chars@.len() == rows
    &&& c.len >= 6
    &&& forall|y: int| 0 <= y < rows ==> #[trigger] c.chars@[y] < n
}

impl Rain {
    /// What every rain keeps.
    pub open spec fn wf(self) -> bool {
        &&& self.cell_w > 0
        &&& self.cell_h > 0
        &&& 0 < self.glyphs@.len() <= u32::MAX
        &&& self.columns@.len() == self.cols
        &&& rows_fit(self.rows)
        &&& forall|i: int|
            0 <= i < self.columns@.len() ==> #[trigger] column_wf(
                self.columns@[i],
                self.rows,
                self.glyphs@.len(),
            )
    }

    /// What a new grid or a step leaves alone.
    pub open spec fn same_cells(self, other: Rain) -> bool {
        &&& self.glyphs == other.glyphs
        &&& self.cell_w == other.cell_w
        &&& self.cell_h == other.cell_h
    }

    /// Rain with these glyphs and no grid yet.
    pub fn new(glyphs: Vec<GlyphBmp>, cell_w: usize, cell_h: usize) -> (r: Rain)
        requires
            cell_w > 0,
            cell_h > 0,
            0 < glyphs@.len() <= u32::MAX,
        ensures
            r.wf(),
            r.glyphs == glyphs,
            r.cell_w == cell_w,
            r.cell_h == cell_h,
            r.cols == 0,
            r.rows == 0,
            r.columns@.len() == 0,
            r.rng@ == SEED,
            !r.inited_grid,
    {
        Rain {
            glyphs,
            cell_w,
            cell_h,
            cols: 0,
            rows: 0,
            columns: Vec::new(),
            rng: Rng(SEED),
            inited_grid: false,
        }
    }
}

/// The character that the generator's state `s` stands for among `n` glyphs.
pub open spec fn char_from(s: u64, n: u32) -> u8 {
    draw_below(s, n) as u8
}

/// The first draw that goes to the column `c` of a new grid of `rows` rows.
pub open spec fn draws_before(c: int, rows: int) -> nat
    recommends
        c >= 0,
        rows >= 0,
{
    (c * (rows + 3)) as nat
}

/// The character in the row `y` of the column `c` of a new grid.
pub open spec fn first_char(s: u64, n: u32, rows: usize, c: int, y: int) -> u8 {
    char_from(xorshift_after(s, (draws_before(c, rows as int) + y + 1) as nat), n)
}

/// How the column `c` of a new grid starts.
pub open spec fn first_spawn(s: u64, rows: usize, c: int) -> Spawn {
    let k = draws_before(c, rows as int) + rows as nat;
    Spawn {
        speed: draw_frac(xorshift_after(s, k + 1)),
        drop: draw_below(xorshift_after(s, k + 2), rows as u32),
        len: (6 + draw_below(xorshift_after(s, k + 3), len_choices(rows as u32))) as i32,
    }
}

/// What laying a new grid over `width` by `height` pixels makes of the rain, and how its columns
/// start: for each column a character per row, then how it starts, all from consecutive draws.
pub open spec fn laid(
    before: Rain,
    width: usize,
    height: usize,
    after: Rain,
    spawns: Seq<Spawn>,
) -> bool {
    &&& after.wf()
    &&& after.same_cells(before)
    &&& after.inited_grid
    &&& after.cols == cells_across(width, before.cell_w)
    &&& after.rows == cells_across(height, before.cell_h)
    &&& spawns.len() == after.cols
    &&& forall|c: int|
        0 <= c < spawns.len() ==> #[trigger] spawns[c] == first_spawn(before.rng@, after.rows, c)
    &&& forall|c: int| 0 <= c < spawns.len() ==> (#[trigger] after.columns@[c]).len == spawns[c].len
    &&& forall|c: int, y: int|
        0 <= c < spawns.len() && 0 <= y < after.rows ==> #[trigger] after.columns@[c].chars@[y]
            == first_char(before.rng@, before.glyphs@.len() as u32, after.rows, c, y)
    &&& after.rng@ == xorshift_after(
        before.rng@,
        draws_before(after.cols as int, after.rows as int),
    )
}

proof fn byte_is_no_more(n: u32)
    ensures
        n as u8 <= n,
{
    let m = n as u8;
    assert(m <= n) by (bit_vector)
        requires
            m == n as u8,
    ;
}

/// A trail length drawn for a grid of `rows` rows.
fn draw_len(rng: &mut Rng, rows: u32) -> (r: i32)
    requires
        6 + len_choices(rows) - 1 <= i32::MAX,
    ensures
        final(rng)@ == xorshift(old(rng)@),
        r == 6 + draw_below(xorshift(old(rng)@), len_choices(rows)),
        r >= 6,
{
    let n: u32 = if rows / 2 < 7 {
        7
    } else {
        rows / 2
    };
    6 + rng.below(n) as i32
}

impl Rain {
    /// Whether a grid can be laid over `height` pixels.
    pub fn can_rebuild(&self, height: usize) -> (r: bool)
        requires
            self.wf(),
        ensures
            r == rows_fit(cells_across(height, self.cell_h)),
    {
        let rows: usize = if height / self.cell_h == 0 {
            1
        } else {
            height / self.cell_h
        };
        let n: u32 = rows as u32 / 2;
        n <= 0x7fff_fffa
    }

    /// Lays a new grid over `width` by `height` pixels and fills it at random: for each column a
    /// character per row, then how it starts, all from consecutive draws.
    pub fn rebuild_grid(&mut self, width: usize, height: usize) -> (r: Vec<Spawn>)
        requires
            old(self).wf(),
            rows_fit(cells_across(height, old(self).cell_h)),
        ensures
            laid(*old(self), width, height, *final(self), r@),
    {
        let ghost s = self.rng@;
        let cols: usize = if width / self.cell_w == 0 {
            1
        } else {
            width / self.cell_w
        };
        let rows: usize = if height / self.cell_h == 0 {
            1
        } else {
            height / self.cell_h
        };
        let nglyphs: u32 = self.glyphs.len() as u32;
        let mut columns: Vec<Column> = Vec::new();
        let mut spawns: Vec<Spawn> = Vec::new();
        for c in 0..cols
            invariant
                self.glyphs == old(self).glyphs,
                self.cell_w == old(self).cell_w,
                self.cell_h == old(self).cell_h,
                s == old(self).rng@,
                nglyphs == self.glyphs@.len(),
                nglyphs > 0,
                rows_fit(rows),
                columns@.len() == c,
                spawns@.len() == c,
                self.rng@ == xorshift_after(s, draws_before(c as int, rows as int)),
                forall|i: int| 0 <= i < c ==> #[trigger] spawns@[i] == first_spawn(s, rows, i),
                forall|i: int|
                    0 <= i < c ==> #[trigger] column_wf(columns@[i], rows, nglyphs as nat),
                forall|i: int| 0 <= i < c ==> (#[trigger] columns@[i]).len == spawns@[i].len,
                forall|i: int, y: int|
                    0 <= i < c && 0 <= y < rows ==> #[trigger] columns@[i].chars@[y] == first_char(
                        s,
                        nglyphs,
                        rows,
                        i,
                        y,
                    ),
        {
            let ghost base = draws_before(c as int, rows as int);
            assert(c * (rows + 3) >= 0) by (nonlinear_arith)
                requires
                    c >= 0,
                    rows >= 0,
            ;
            let mut chars: Vec<u8> = Vec::new();
            for y in 0..rows
                invariant
                    self.glyphs == old(self).glyphs,
                    self.cell_w == old(self).cell_w,
                    self.cell_h == old(self).cell_h,
                    nglyphs > 0,
                    base == draws_before(c as int, rows as int),
                    chars@.len() == y,
                    self.rng@ == xorshift_after(s, base + y as nat),
                    forall|j: int| 0 <= j < y ==> #[trigger] chars@[j] < nglyphs,
                    forall|j: int|
                        0 <= j < y ==> #[trigger] chars@[j] == first_char(
                            s,
                            nglyphs,
                            rows,
                            c as int,
                            j,
                        ),
            {
                let x: u32 = self.rng.below(nglyphs);
                proof {
                    byte_is_no_more(x);
                    assert((base + y + 1) as nat - 1 == base + y as nat);
                }
                chars.push(x as u8);
            }
            let speed: u32 = self.rng.frac();
            let drop: u32 = self.rng.below(rows as u32);
            let len: i32 = draw_len(&mut self.rng, rows as u32);
            proof {
                let k = base + rows as nat;
                assert((k + 1) as nat - 1 == k);
                assert((k + 2) as nat - 1 == k + 1);
                assert((k + 3) as nat - 1 == k + 2);
                assert(draws_before(c + 1, rows as int) == k + 3) by (nonlinear_arith)
                    requires
                        k == base + rows as nat,
                        base == draws_before(c as int, rows as int),
                        c >= 0,
                        rows >= 0,
                ;
            }
            let spawn = Spawn { speed, drop, len };
            assert(spawn == first_spawn(s, rows, c as int));
            spawns.push(spawn);
            columns.push(Column { len, chars });
            assert(column_wf(columns@[c as int], rows, nglyphs as nat));
        }
        self.cols = cols;
        self.rows = rows;
        self.columns = columns;
        self.inited_grid = true;
        spawns
    }
}

/// The first row of the grid that a leader moving down from the row `from` enters.
pub open spec fn first_entered(from: i32) -> int {
    if from + 1 < 0 {
        0
    } else {
        from + 1
    }
}

/// How many rows of a grid of `rows` rows a leader enters on its way from the row `from` to `to`.
pub open spec fn rows_entered(rows: usize, from: i32, to: i32) -> nat {
    let last = if to < rows as i32 {
        to as int
    } else {
        rows as i32 - 1
    };
    if last < first_entered(from) {
        0
    } else {
        (last - first_entered(from) + 1) as nat
    }
}

/// The characters of a column after its leader has moved from the row `from` to `to`: in each row
/// that it entered a new one, from consecutive draws.
pub open spec fn refreshed(
    chars: Seq<u8>,
    s: u64,
    n: u32,
    rows: usize,
    from: i32,
    to: i32,
) -> Seq<u8> {
    Seq::new(
        chars.len(),
        |y: int|
            if first_entered(from) <= y < first_entered(from) + rows_entered(rows, from, to) {
                char_from(xorshift_after(s, (y - first_entered(from) + 1) as nat), n)
            } else {
                chars[y]
            },
    )
}

/// Whether a column whose leader is in the row `to` has left a grid of `rows` rows with its whole
/// trail.
pub open spec fn fallen(len: i32, rows: usize, to: i32) -> bool {
    to - len > rows as i32
}

/// How a column starts anew when the generator's state is `s`.
pub open spec fn next_spawn(s: u64, rows: usize) -> Spawn {
    Spawn {
        speed: draw_frac(xorshift_after(s, 1)),
        drop: draw_below(xorshift_after(s, 3), (rows as i32 as u32 + 1) as u32),
        len: (6 + draw_below(xorshift_after(s, 2), len_choices(rows as i32 as u32))) as i32,
    }
}

/// How a column of trail length `len` starts anew, if it does.
pub open spec fn respawn(len: i32, rows: usize, m: (i32, i32), s: u64) -> Option<Spawn> {
    if fallen(len, rows, m.1) {
        Some(next_spawn(xorshift_after(s, rows_entered(rows, m.0, m.1)), rows))
    } else {
        None
    }
}

/// How many draws the move of a column takes.
pub open spec fn draws_for(len: i32, rows: usize, m: (i32, i32)) -> nat {
    rows_entered(rows, m.0, m.1) + if fallen(len, rows, m.1) {
        3nat
    } else {
        0
    }
}

/// How many draws the moves of the first `i` columns take.
pub open spec fn draws_to(columns: Seq<Column>, rows: usize, moves: Seq<(i32, i32)>, i: nat) -> nat
    decreases i,
{
    if i == 0 {
        0
    } else {
        draws_to(columns, rows, moves, (i - 1) as nat) + draws_for(
            columns[i - 1].len,
            rows,
            moves[i - 1],
        )
    }
}

/// The generator's state when it is the turn of the column `i`.
pub open spec fn state_at(
    columns: Seq<Column>,
    rows: usize,
    moves: Seq<(i32, i32)>,
    s: u64,
    i: nat,
) -> u64 {
    xorshift_after(s, draws_to(columns, rows, moves, i))
}

/// What the moves of the columns make of the rain, and how those start anew that do: the rows that
/// a leader enters get new characters, and a column that has left the grid with its whole trail
/// starts anew, column after column from consecutive draws.
pub open spec fn stepped(
    before: Rain,
    moves: Seq<(i32, i32)>,
    after: Rain,
    spawns: Seq<Option<Spawn>>,
) -> bool {
    &&& after.wf()
    &&& after.same_cells(before)
    &&& after.cols == before.cols
    &&& after.rows == before.rows
    &&& after.inited_grid == before.inited_grid
    &&& spawns.len() == moves.len()
    &&& forall|i: int|
        0 <= i < spawns.len() ==> #[trigger] spawns[i] == respawn(
            before.columns@[i].len,
            before.rows,
            moves[i],
            state_at(before.columns@, before.rows, moves, before.rng@, i as nat),
        )
    &&& forall|i: int|
        0 <= i < spawns.len() ==> (#[trigger] after.columns@[i]).len == match spawns[i] {
            Some(spawn) => spawn.len,
            None => before.columns@[i].len,
        }
    &&& forall|i: int|
        0 <= i < spawns.len() ==> (#[trigger] after.columns@[i]).chars@ == refreshed(
            before.columns@[i].chars@,
            state_at(before.columns@, before.rows, moves, before.rng@, i as nat),
            before.glyphs@.len() as u32,
            before.rows,
            moves[i].0,
            moves[i].1,
        )
    &&& after.rng@ == state_at(before.columns@, before.rows, moves, before.rng@, moves.len())
}

/// Whether the columns can make these moves: rows are counted within 32 bits.
pub open spec fn moves_fit(columns: Seq<Column>, moves: Seq<(i32, i32)>) -> bool {
    &&& moves.len() == columns.len()
    &&& forall|i: int|
        0 <= i < moves.len() ==> (#[trigger] moves[i]).0 < i32::MAX && i32::MIN <= moves[i].1
            - columns[i].len
}

/// A signed count of rows is that count, or less than it.
proof fn signed_rows(rows: usize)
    ensures
        rows as i32 <= rows,
        rows as i32 as u32 == rows as u32,
{
    let a = rows as i32;
    let b = rows as u32;
    assert(a <= rows && a as u32 == b) by (bit_vector)
        requires
            a == rows as i32,
            b == rows as u32,
    ;
}

/// Puts new characters into the rows that a leader enters.
fn refresh(rng: &mut Rng, chars: &mut Vec<u8>, n: u32, rows: usize, from: i32, to: i32)
    requires
        n > 0,
        from < i32::MAX,
        old(chars)@.len() == rows,
    ensures
        final(chars)@ == refreshed(old(chars)@, old(rng)@, n, rows, from, to),
        final(rng)@ == xorshift_after(old(rng)@, rows_entered(rows, from, to)),
        forall|y: int|
            0 <= y < rows && old(chars)@[y] < n ==> #[trigger] final(chars)@[y] < n,
{
    let ghost s = rng@;
    proof {
        signed_rows(rows);
    }
    let end: i32 = rows as i32;
    let first: i32 = if from + 1 < 0 {
        0
    } else {
        from + 1
    };
    let mut y: i32 = first;
    let ghost m = rows_entered(rows, from, to);
    assert(chars@ =~= Seq::new(
        old(chars)@.len(),
        |j: int|
            if first <= j < y {
                char_from(xorshift_after(s, (j - first + 1) as nat), n)
            } else {
                old(chars)@[j]
            },
    ));
    while y <= to && y < end
        invariant
            n > 0,
            0 <= first <= y,
            end == rows as i32,
            end <= rows,
            y <= first || (y <= to + 1 && y <= end),
            old(chars)@.len() == rows,
            chars@.len() == rows,
            rng@ == xorshift_after(s, (y - first) as nat),
            chars@ == Seq::new(
                old(chars)@.len(),
                |j: int|
                    if first <= j < y {
                        char_from(xorshift_after(s, (j - first + 1) as nat), n)
                    } else {
                        old(chars)@[j]
                    },
            ),
            forall|j: int|
                0 <= j < rows && old(chars)@[j] < n ==> #[trigger] chars@[j] < n,
        decreases end - y,
    {
        let x: u32 = (rng.next_u64() % (n as u64)) as u32;
        proof {
            byte_is_no_more(x);
            assert((y - first + 1) as nat - 1 == (y - first) as nat);
        }
        chars[y as usize] = x as u8;
        assert(chars@ =~= Seq::new(
            old(chars)@.len(),
            |j: int|
                if first <= j < y + 1 {
                    char_from(xorshift_after(s, (j - first + 1) as nat), n)
                } else {
                    old(chars)@[j]
                },
        ));
        y = y + 1;
    }
    assert(m == y - first);
    assert(chars@ =~= refreshed(old(chars)@, s, n, rows, from, to));
}

impl Rain {
    /// Whether the columns can make these moves.
    pub fn can_step(&self, moves: &Vec<(i32, i32)>) -> (r: bool)
        ensures
            r == moves_fit(self.columns@, moves@),
    {
        let n: usize = self.columns.len();
        if moves.len() != n {
            return false;
        }
        for i in 0..n
            invariant
                n == self.columns@.len() == moves@.len(),
                forall|j: int|
                    0 <= j < i ==> (#[trigger] moves@[j]).0 < i32::MAX && i32::MIN <= moves@[j].1
                        - self.columns@[j].len,
        {
            if moves[i].0 == i32::MAX || (moves[i].1 as i64) - (self.columns[i].len as i64)
                < i32::MIN as i64 {
                assert(!moves_fit(self.columns@, moves@)) by {
                    assert(moves@[i as int].0 == i32::MAX || moves@[i as int].1
                        - self.columns@[i as int].len < i32::MIN);
                }
                return false;
            }
        }
        true
    }

    /// Moves every column. `moves[i]` is the row of the leader of the column `i` before and after.
    /// The rows that a leader enters get new characters, and a column that has left the grid with
    /// its whole trail starts anew: the result says how.
    pub fn step(&mut self, moves: &Vec<(i32, i32)>) -> (r: Vec<Option<Spawn>>)
        requires
            old(self).wf(),
            moves_fit(old(self).columns@, moves@),
        ensures
            stepped(*old(self), moves@, *final(self), r@),
    {
        let ghost s = self.rng@;
        let ghost before = self.columns@;
        let rows: usize = self.rows;
        let rows_i: i32 = rows as i32;
        proof {
            signed_rows(rows);
        }
        let nglyphs: u32 = self.glyphs.len() as u32;
        let n: usize = self.columns.len();
        let mut spawns: Vec<Option<Spawn>> = Vec::new();
        for idx in 0..n
            invariant
                self.same_cells(*old(self)),
                self.cols == old(self).cols,
                self.rows == old(self).rows == rows,
                self.inited_grid == old(self).inited_grid,
                s == old(self).rng@,
                before == old(self).columns@,
                rows_i == rows as i32,
                rows as i32 as u32 == rows as u32,
                rows_fit(rows),
                nglyphs == self.glyphs@.len(),
                nglyphs > 0,
                n == before.len() == moves@.len() == self.columns@.len(),
                moves_fit(before, moves@),
                spawns@.len() == idx,
                self.rng@ == state_at(before, rows, moves@, s, idx as nat),
                forall|i: int|
                    0 <= i < n ==> #[trigger] column_wf(self.columns@[i], rows, nglyphs as nat),
                forall|i: int| idx <= i < n ==> #[trigger] self.columns@[i] == before[i],
                forall|i: int|
                    0 <= i < idx ==> #[trigger] spawns@[i] == respawn(
                        before[i].len,
                        rows,
                        moves@[i],
                        state_at(before, rows, moves@, s, i as nat),
                    ),
                forall|i: int|
                    0 <= i < idx ==> (#[trigger] self.columns@[i]).len == match spawns@[i] {
                        Some(spawn) => spawn.len,
                        None => before[i].len,
                    },
                forall|i: int|
                    0 <= i < idx ==> (#[trigger] self.columns@[i]).chars@ == refreshed(
                        before[i].chars@,
                        state_at(before, rows, moves@, s, i as nat),
                        nglyphs,
                        rows,
                        moves@[i].0,
                        moves@[i].1,
                    ),
        {
            let (old_i, new_i): (i32, i32) = moves[idx];
            let ghost here = self.rng@;
            assert(self.columns@[idx as int] == before[idx as int]);
            assert(column_wf(self.columns@[idx as int], rows, nglyphs as nat));
            refresh(
                &mut self.rng,
                &mut self.columns[idx].chars,
                nglyphs,
                rows,
                old_i,
                new_i,
            );
            let mut spawn: Option<Spawn> = None;
            let ghost mid = self.rng@;
            if new_i - self.columns[idx].len > rows_i {
                let speed: u32 = self.rng.frac();
                let len: i32 = draw_len(&mut self.rng, rows_i as u32);
                let drop: u32 = self.rng.below(rows_i as u32 + 1);
                self.columns[idx].len = len;
                spawn = Some(Spawn { speed, drop, len });
                proof {
                    reveal_with_fuel(xorshift_after, 4);
                }
            }
            proof {
                let d = draws_to(before, rows, moves@, idx as nat);
                let m = rows_entered(rows, old_i, new_i);
                turns_add_up(s, d, m);
                turns_add_up(s, d + m, 3);
                reveal_with_fuel(xorshift_after, 4);
                assert(draws_to(before, rows, moves@, (idx + 1) as nat) == d + draws_for(
                    before[idx as int].len,
                    rows,
                    moves@[idx as int],
                ));
            }
            spawns.push(spawn);
            assert(column_wf(self.columns@[idx as int], rows, nglyphs as nat));
        }
        spawns
    }
}

} // verus!
