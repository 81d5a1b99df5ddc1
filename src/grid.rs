use vstd::prelude::*;

use crate::constants::{PLAYFIELD_H, PLAYFIELD_W};

verus! {

/// A playfield grid of cell codes, indexed by column then row.
pub type Grid = [[u8; PLAYFIELD_H]; PLAYFIELD_W];

/// The code of a cell.
pub open spec fn at(g: Grid, x: int, y: int) -> u8 {
    g@[x]@[y]
}

/// Every listed cell lies on the grid.
pub open spec fn cells_ok(cells: Seq<(usize, usize, u8)>) -> bool {
    forall|j: int|
        0 <= j < cells.len() ==> (#[trigger] cells[j]).0 < PLAYFIELD_W && cells[j].1
            < PLAYFIELD_H
}

/// Every listed cell stays on the grid when raised by `k` rows.
pub open spec fn fits(cells: Seq<(usize, usize, u8)>, k: int) -> bool {
    forall|j: int| 0 <= j < cells.len() ==> k <= (#[trigger] cells[j]).1
}

/// Some listed cell, raised by `k` rows, meets a non-empty cell of `g`.
pub open spec fn hits(g: Grid, cells: Seq<(usize, usize, u8)>, k: int) -> bool {
    exists|j: int|
        0 <= j < cells.len() && at(g, (#[trigger] cells[j]).0 as int, cells[j].1 - k) > 0
}

/// `k` is the least offset from `start` up at which the cells, raised by `k`
/// rows, stay on the grid and meet only empty cells.
pub open spec fn lands_at(g: Grid, cells: Seq<(usize, usize, u8)>, start: int, k: int) -> bool {
    &&& start <= k
    &&& fits(cells, k)
    &&& !hits(g, cells, k)
    &&& forall|k2: int| start <= k2 < k ==> #[trigger] hits(g, cells, k2)
}

/// Some offset from `start` up raises the cells onto empty cells of the grid.
pub open spec fn can_land(g: Grid, cells: Seq<(usize, usize, u8)>, start: int) -> bool {
    exists|k: int| start <= k && fits(cells, k) && !hits(g, cells, k)
}

/// Some listed cell, raised by `k` rows, is the cell (`x`, `y`).
pub open spec fn covers(cells: Seq<(usize, usize, u8)>, k: int, x: int, y: int) -> bool {
    exists|j: int| 0 <= j < cells.len() && (#[trigger] cells[j]).0 == x && cells[j].1 - k == y
}

/// `new` is `old` with the listed cells, raised by `k` rows, set to `value`.
pub open spec fn stamped(
    old: Grid,
    new: Grid,
    cells: Seq<(usize, usize, u8)>,
    k: int,
    value: u8,
) -> bool {
    forall|x: int, y: int|
        0 <= x < PLAYFIELD_W && 0 <= y < PLAYFIELD_H ==> #[trigger] at(new, x, y) == if covers(
            cells,
            k,
            x,
            y,
        ) {
            value
        } else {
            at(old, x, y)
        }
}

/// `new` is `old` with every cell of code `from` set to `to`.
pub open spec fn repainted(old: Grid, new: Grid, from: u8, to: u8) -> bool {
    forall|x: int, y: int|
        0 <= x < PLAYFIELD_W && 0 <= y < PLAYFIELD_H ==> #[trigger] at(new, x, y) == if at(
            old,
            x,
            y,
        ) == from {
            to
        } else {
            at(old, x, y)
        }
}

/// Whether any listed cell, raised by `k` rows, meets a non-empty cell.
pub fn collides_at(grid: &Grid, cells: &Vec<(usize, usize, u8)>, k: usize) -> (r: bool)
    requires
        cells_ok(cells@),
        fits(cells@, k as int),
    ensures
        r == hits(*grid, cells@, k as int),
{
    let mut j: usize = 0;
    while j < cells.len()
        invariant
            j <= cells@.len(),
            cells_ok(cells@),
            fits(cells@, k as int),
            forall|i: int| 0 <= i < j ==> at(*grid, (#[trigger] cells@[i]).0 as int, cells@[i].1 - k) == 0,
        decreases cells@.len() - j,
    {
        let (x, y, _value) = cells[j];
        if grid[x][y - k] > 0 {
            return true;
        }
        j += 1;
    }
    false
}

/// Whether the cells, raised by `k` rows, stay on the grid.
fn fits_at(cells: &Vec<(usize, usize, u8)>, k: usize) -> (r: bool)
    ensures
        r == fits(cells@, k as int),
{
    let mut j: usize = 0;
    while j < cells.len()
        invariant
            j <= cells@.len(),
            forall|i: int| 0 <= i < j ==> k <= (#[trigger] cells@[i]).1,
        decreases cells@.len() - j,
    {
        if cells[j].1 < k {
            return false;
        }
        j += 1;
    }
    true
}

/// Whether some offset from `start` up raises the cells onto empty cells.
pub fn landing_exists(grid: &Grid, cells: &Vec<(usize, usize, u8)>, start: usize) -> (r: bool)
    requires
        cells_ok(cells@),
    ensures
        r == can_land(*grid, cells@, start as int),
{
    let mut k: usize = start;
    if cells.len() == 0 {
        assert(fits(cells@, start as int) && !hits(*grid, cells@, start as int));
        return true;
    }
    while k < PLAYFIELD_H
        invariant
            start <= k,
            cells_ok(cells@),
            cells@.len() > 0,
            forall|k2: int|
                start <= k2 < k ==> !(fits(cells@, k2) && !#[trigger] hits(*grid, cells@, k2)),
        decreases PLAYFIELD_H - k,
    {
        if fits_at(cells, k) && !collides_at(grid, cells, k) {
            return true;
        }
        k += 1;
    }
    assert forall|k2: int| start <= k2 implies !(fits(cells@, k2) && !#[trigger] hits(
        *grid,
        cells@,
        k2,
    )) by {
        if k2 >= PLAYFIELD_H {
            assert(cells@[0].1 < k2);
        }
    }
    false
}

/// The least offset from `start` up that raises the cells onto empty cells.
pub fn landing_offset(grid: &Grid, cells: &Vec<(usize, usize, u8)>, start: usize) -> (k: usize)
    requires
        cells_ok(cells@),
        can_land(*grid, cells@, start as int),
    ensures
        lands_at(*grid, cells@, start as int, k as int),
{
    let ghost free = choose|k: int| start <= k && fits(cells@, k) && !hits(*grid, cells@, k);
    let mut offset: usize = start;
    while collides_at(grid, cells, offset)
        invariant
            start <= offset <= free,
            cells_ok(cells@),
            fits(cells@, free),
            !hits(*grid, cells@, free),
            fits(cells@, offset as int),
            forall|k2: int| start <= k2 < offset ==> #[trigger] hits(*grid, cells@, k2),
        decreases free - offset,
    {
        offset += 1;
    }
    offset
}

/// Sets the listed cells, raised by `k` rows, to `value`.
pub fn stamp(grid: &mut Grid, cells: &Vec<(usize, usize, u8)>, k: usize, value: u8)
    requires
        cells_ok(cells@),
        fits(cells@, k as int),
    ensures
        stamped(*old(grid), *final(grid), cells@, k as int, value),
{
    let mut j: usize = 0;
    while j < cells.len()
        invariant
            j <= cells@.len(),
            cells_ok(cells@),
            fits(cells@, k as int),
            forall|x: int, y: int|
                0 <= x < PLAYFIELD_W && 0 <= y < PLAYFIELD_H ==> #[trigger] at(*grid, x, y) == if covers(
                    cells@.take(j as int),
                    k as int,
                    x,
                    y,
                ) {
                    value
                } else {
                    at(*old(grid), x, y)
                },
        decreases cells@.len() - j,
    {
        let (x, y, _value) = cells[j];
        let ghost prev = *grid;
        grid[x][y - k] = value;
        assert forall|x2: int, y2: int|
            0 <= x2 < PLAYFIELD_W && 0 <= y2 < PLAYFIELD_H implies #[trigger] at(*grid, x2, y2)
            == if x2 == x && y2 == y - k {
            value
        } else {
            at(prev, x2, y2)
        } by {
            if x2 != x {
                assert(grid@[x2] == prev@[x2]);
            }
        }
        assert forall|x2: int, y2: int|
            0 <= x2 < PLAYFIELD_W && 0 <= y2 < PLAYFIELD_H implies #[trigger] at(*grid, x2, y2)
            == if covers(cells@.take(j + 1), k as int, x2, y2) {
            value
        } else {
            at(*old(grid), x2, y2)
        } by {
            assert(at(prev, x2, y2) == if covers(cells@.take(j as int), k as int, x2, y2) {
                value
            } else {
                at(*old(grid), x2, y2)
            });
            if covers(cells@.take(j + 1), k as int, x2, y2) {
                let i = choose|i: int|
                    0 <= i < j + 1 && (#[trigger] cells@.take(j + 1)[i]).0 == x2 && cells@.take(
                        j + 1,
                    )[i].1 - k == y2;
                if i < j {
                    assert(cells@.take(j as int)[i] == cells@.take(j + 1)[i]);
                }
            }
            if covers(cells@.take(j as int), k as int, x2, y2) {
                let i = choose|i: int|
                    0 <= i < j && (#[trigger] cells@.take(j as int)[i]).0 == x2 && cells@.take(
                        j as int,
                    )[i].1 - k == y2;
                assert(cells@.take(j + 1)[i] == cells@.take(j as int)[i]);
            }
            if x2 == x && y2 == y - k {
                assert(cells@.take(j + 1)[j as int] == cells@[j as int]);
            }
        }
        j += 1;
    }
    assert(cells@.take(cells@.len() as int) =~= cells@);
}

} // verus!
