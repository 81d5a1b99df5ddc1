use vstd::prelude::*;

use crate::constants::{PLAYFIELD_H, PLAYFIELD_W};
use crate::grid::{Grid, at, cells_ok, fits, hits, lands_at, stamped};
use crate::tetromino::{PieceMat4, Tetromino, lemma_mask_cells, mask_cells, piece_cells};
use crate::constants::{HOLE_VALUE, PLAYABLE_VALUE};
use crate::flood::{flooded, in_grid, is_path, reach};
use crate::world::{World, holes_sealed, seal_seed};

verus! {

/// Indices of the non-empty cells of a grid, column by column.
pub open spec fn filled_set(g: Grid) -> Set<int> {
    Set::new(|i: int| 0 <= i < 240 && at(g, i / 24, i % 24) != 0)
}

/// Number of non-empty cells of a grid.
pub open spec fn filled_count(g: Grid) -> nat {
    filled_set(g).len()
}

/// The index of cell `c` raised by `k` rows.
pub open spec fn key(c: (usize, usize, u8), k: int) -> int {
    c.0 * 24 + (c.1 - k)
}

/// No two listed cells share a place.
pub open spec fn distinct_cells(cells: Seq<(usize, usize, u8)>) -> bool {
    forall|i: int, j: int|
        0 <= i < j < cells.len() ==> (#[trigger] cells[i]).0 != (#[trigger] cells[j]).0 || cells[i].1
            != cells[j].1
}

/// The cells of a mask are listed in strictly increasing row-major order.
proof fn lemma_mask_cells_ordered(m: PieceMat4, row: int, col: int)
    requires
        0 <= row <= 3,
        0 <= col <= 4,
    ensures
        forall|i: int, j: int|
            0 <= i < j < mask_cells(m, row, col).len() ==> {
                let a = #[trigger] mask_cells(m, row, col)[i];
                let b = #[trigger] mask_cells(m, row, col)[j];
                a.0 < b.0 || (a.0 == b.0 && a.1 < b.1)
            },
    decreases row, col,
{
    if row <= 0 && col <= 0 {
    } else if col <= 0 {
        lemma_mask_cells_ordered(m, row - 1, 4);
        assert(mask_cells(m, row, col) == mask_cells(m, row - 1, 4));
    } else {
        lemma_mask_cells_ordered(m, row, col - 1);
        lemma_mask_cells(m, row, col - 1);
        let prev = mask_cells(m, row, col - 1);
        if m@[row]@[col - 1] != 0 {
            let e = (row, col - 1, m@[row]@[col - 1]);
            assert(mask_cells(m, row, col) == prev.push(e));
            assert forall|i: int, j: int| 0 <= i < j < prev.len() + 1 implies {
                let a = #[trigger] mask_cells(m, row, col)[i];
                let b = #[trigger] mask_cells(m, row, col)[j];
                a.0 < b.0 || (a.0 == b.0 && a.1 < b.1)
            } by {
                assert(mask_cells(m, row, col)[i] == prev[i]);
                if j < prev.len() {
                    assert(mask_cells(m, row, col)[j] == prev[j]);
                }
            }
        } else {
            assert(mask_cells(m, row, col) == prev);
        }
    }
}

/// A well-formed piece covers four distinct cells, wherever it is dropped.
pub proof fn lemma_bottom_cells_distinct(t: Tetromino)
    requires
        t.wf(),
    ensures
        distinct_cells(t.bottom_cells()),
        distinct_cells(t.current_cells()),
{
    lemma_mask_cells_ordered(t.playfield.mat4, 3, 4);
    lemma_mask_cells(t.playfield.mat4, 3, 4);
    crate::tetromino::lemma_table_shape(t.kind, t.current_rotation);
    t.lemma_cells();
    let pc = piece_cells(t.playfield.mat4);
    assert forall|i: int, j: int| 0 <= i < j < t.bottom_cells().len() implies (
    #[trigger] t.bottom_cells()[i]).0 != (#[trigger] t.bottom_cells()[j]).0 || t.bottom_cells()[i].1
        != t.bottom_cells()[j].1 by {
        assert(pc[i].0 < pc[j].0 || (pc[i].0 == pc[j].0 && pc[i].1 < pc[j].1));
        assert(t.playfield.mat4@[pc[i].0]@[pc[i].1] != 0);
        assert(t.playfield.mat4@[pc[j].0]@[pc[j].1] != 0);
    }
    assert forall|i: int, j: int| 0 <= i < j < t.current_cells().len() implies (
    #[trigger] t.current_cells()[i]).0 != (#[trigger] t.current_cells()[j]).0 || t.current_cells()[i].1
        != t.current_cells()[j].1 by {
        assert(pc[i].0 < pc[j].0 || (pc[i].0 == pc[j].0 && pc[i].1 < pc[j].1));
        assert(t.playfield.mat4@[pc[i].0]@[pc[i].1] != 0);
        assert(t.playfield.mat4@[pc[j].0]@[pc[j].1] != 0);
    }
}

/// Writing a non-empty code onto distinct empty cells adds exactly that
/// many non-empty cells to the grid.
pub proof fn lemma_stamp_count(old: Grid, new: Grid, cells: Seq<(usize, usize, u8)>, k: int, v: u8)
    requires
        cells_ok(cells),
        fits(cells, k),
        k >= 0,
        !hits(old, cells, k),
        stamped(old, new, cells, k, v),
        v != 0,
        distinct_cells(cells),
    ensures
        filled_count(new) == filled_count(old) + cells.len(),
{
    let keys = cells.map_values(|c: (usize, usize, u8)| key(c, k));
    assert forall|i: int, j: int| 0 <= i < j < keys.len() implies keys[i] != keys[j] by {
        let a = cells[i];
        let b = cells[j];
        assert(a.0 != b.0 || a.1 != b.1);
        assert(a.1 - k < 24 && b.1 - k < 24 && a.1 - k >= 0 && b.1 - k >= 0);
        if a.0 != b.0 {
            if a.0 < b.0 {
                assert(a.0 * 24 + 24 <= b.0 * 24) by (nonlinear_arith)
                    requires a.0 < b.0;
            } else {
                assert(b.0 * 24 + 24 <= a.0 * 24) by (nonlinear_arith)
                    requires b.0 < a.0;
            }
        }
    }
    assert(keys.no_duplicates());
    keys.unique_seq_to_set();
    let ks = keys.to_set();
    let before = filled_set(old);
    let after = filled_set(new);
    vstd::set_lib::lemma_int_range(0, 240);
    vstd::set_lib::lemma_len_subset(before, vstd::set_lib::set_int_range(0, 240));
    assert forall|i: int| ks.contains(i) implies 0 <= i < 240 && i / 24 < PLAYFIELD_W && i % 24 < PLAYFIELD_H && crate::grid::covers(cells, k, i / 24, i % 24) && at(old, i / 24, i % 24) == 0 by {
        let j = choose|j: int| 0 <= j < keys.len() && keys[j] == i;
        let c = cells[j];
        assert(c.0 < PLAYFIELD_W && c.1 < PLAYFIELD_H && k <= c.1);
        assert(i == c.0 * 24 + (c.1 - k));
        assert(i / 24 == c.0 && i % 24 == c.1 - k) by (nonlinear_arith)
            requires i == c.0 * 24 + (c.1 - k), 0 <= c.1 - k < 24, 0 <= c.0;
        assert(!(at(old, cells[j].0 as int, cells[j].1 - k) > 0));
    }
    assert(before.disjoint(ks));
    assert forall|i: int| #[trigger] after.contains(i) <==> before.contains(i) || ks.contains(i) by {
        if 0 <= i < 240 {
            let x = i / 24;
            let y = i % 24;
            if crate::grid::covers(cells, k, x, y) {
                let j = choose|j: int| 0 <= j < cells.len() && (#[trigger] cells[j]).0 == x && cells[j].1 - k == y;
                assert(keys[j] == key(cells[j], k));
                assert(i == x * 24 + y) by (nonlinear_arith)
                    requires x == i / 24, y == i % 24;
                assert(ks.contains(i));
            } else {
                if ks.contains(i) {
                }
            }
        }
    }
    assert(after =~= before + ks);
    vstd::set_lib::lemma_set_disjoint_lens(before, ks);
}

/// Merging a piece by dropping it from the bottom of its columns adds
/// exactly its four cells to the game grid.
pub proof fn lemma_merge_adds_four(old: World, new: World, tetro: Tetromino)
    requires
        tetro.wf(),
        exists|k: int|
            lands_at(old.game, tetro.bottom_cells(), 0, k) && stamped(
                old.game,
                new.game,
                tetro.bottom_cells(),
                k,
                tetro.kind.code(),
            ),
    ensures
        filled_count(new.game) == filled_count(old.game) + 4,
{
    let k = choose|k: int|
        lands_at(old.game, tetro.bottom_cells(), 0, k) && stamped(
            old.game,
            new.game,
            tetro.bottom_cells(),
            k,
            tetro.kind.code(),
        );
    tetro.lemma_cells();
    lemma_bottom_cells_distinct(tetro);
    lemma_stamp_count(old.game, new.game, tetro.bottom_cells(), k, tetro.kind.code());
}

/// A piece lands only on empty cells: where a merge writes, the grid it
/// searched was empty.
pub proof fn lemma_lands_on_empty(g: Grid, cells: Seq<(usize, usize, u8)>, start: int, k: int, j: int)
    requires
        lands_at(g, cells, start, k),
        0 <= j < cells.len(),
    ensures
        at(g, cells[j].0 as int, cells[j].1 - k) == 0,
{
    if at(g, cells[j].0 as int, cells[j].1 - k) > 0 {
        assert(hits(g, cells, k));
    }
}

/// A fill changes only cells that a walk over cells of the target code
/// reaches from the seed, and only into the replacement.
pub proof fn lemma_fill_marks_only_reached(old: Grid, new: Grid, seed: (int, int), t: u8, r: u8, x: int, y: int)
    requires
        flooded(old, new, seed, t, r),
        in_grid((x, y)),
        at(new, x, y) != at(old, x, y),
    ensures
        reach(old, t, seed, (x, y)),
        at(old, x, y) == t,
        at(new, x, y) == r,
{
    if reach(old, t, seed, (x, y)) {
        crate::flood::lemma_reach_ends(old, t, seed, (x, y));
    }
}

/// Every cell along a walk is itself reached from the walk's start.
proof fn lemma_path_prefix(g: Grid, t: u8, p: Seq<(int, int)>, i: int)
    requires
        is_path(g, t, p),
        0 <= i < p.len(),
    ensures
        reach(g, t, p[0], p[i]),
{
    let q = p.take(i + 1);
    assert forall|k: int| 0 <= k < q.len() implies in_grid(#[trigger] q[k]) && at(g, q[k].0, q[k].1) == t by {
        assert(q[k] == p[k]);
    }
    assert forall|k: int| 0 <= k < q.len() - 1 implies crate::flood::adjacent(#[trigger] q[k], q[k + 1]) by {
        assert(q[k] == p[k] && q[k + 1] == p[k + 1]);
    }
    assert(is_path(g, t, q) && q[0] == p[0] && q.last() == p[i]);
}

/// Sealing holes on a floor without open-space marks leaves the empty cells
/// that an open walk reaches from (1, 1) empty, turns every other empty cell
/// into a hole, and keeps all other cells.
pub proof fn lemma_sealed_holes(before: Grid, after: Grid, locked: Grid, filled: Grid)
    requires
        holes_sealed(before, after, locked, filled),
        forall|x: int, y: int| in_grid((x, y)) ==> #[trigger] at(before, x, y) != PLAYABLE_VALUE,
    ensures
        forall|x: int, y: int|
            in_grid((x, y)) ==> #[trigger] at(after, x, y) == if at(before, x, y) == 0 && !reach(
                before,
                0,
                seal_seed(),
                (x, y),
            ) {
                HOLE_VALUE
            } else {
                at(before, x, y)
            },
{
    assert forall|x: int, y: int| in_grid((x, y)) implies #[trigger] at(filled, x, y) == PLAYABLE_VALUE
        <==> reach(before, 0, seal_seed(), (x, y)) by {
        assert(at(locked, x, y) == if reach(before, 0, seal_seed(), (x, y)) { PLAYABLE_VALUE } else { at(before, x, y) });
        assert(at(filled, x, y) == if at(locked, x, y) == 0 { HOLE_VALUE } else { at(locked, x, y) });
    }
    assert forall|x: int, y: int| in_grid((x, y)) implies #[trigger] reach(filled, PLAYABLE_VALUE, seal_seed(), (x, y))
        <==> reach(before, 0, seal_seed(), (x, y)) by {
        if reach(filled, PLAYABLE_VALUE, seal_seed(), (x, y)) {
            crate::flood::lemma_reach_ends(filled, PLAYABLE_VALUE, seal_seed(), (x, y));
            assert(at(filled, x, y) == PLAYABLE_VALUE);
        }
        if reach(before, 0, seal_seed(), (x, y)) {
            let p = choose|p: Seq<(int, int)>| is_path(before, 0, p) && p[0] == seal_seed() && p.last() == (x, y);
            assert forall|i: int| 0 <= i < p.len() implies in_grid(#[trigger] p[i]) && at(filled, p[i].0, p[i].1)
                == PLAYABLE_VALUE by {
                lemma_path_prefix(before, 0, p, i);
                assert(at(filled, p[i].0, p[i].1) == PLAYABLE_VALUE <==> reach(before, 0, seal_seed(), (p[i].0, p[i].1)));
            }
            assert(is_path(filled, PLAYABLE_VALUE, p));
        }
    }
    assert forall|x: int, y: int| in_grid((x, y)) implies #[trigger] at(after, x, y) == if at(before, x, y) == 0 && !reach(
        before,
        0,
        seal_seed(),
        (x, y),
    ) {
        HOLE_VALUE
    } else {
        at(before, x, y)
    } by {
        assert(at(locked, x, y) == if reach(before, 0, seal_seed(), (x, y)) { PLAYABLE_VALUE } else { at(before, x, y) });
        assert(at(filled, x, y) == if at(locked, x, y) == 0 { HOLE_VALUE } else { at(locked, x, y) });
        assert(at(after, x, y) == if reach(filled, PLAYABLE_VALUE, seal_seed(), (x, y)) { 0 } else { at(filled, x, y) });
        if reach(before, 0, seal_seed(), (x, y)) {
            crate::flood::lemma_reach_ends(before, 0, seal_seed(), (x, y));
        }
    }
}

} // verus!
