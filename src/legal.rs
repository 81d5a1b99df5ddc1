use vstd::prelude::*;

use crate::constants::{DEBUG_GROUND, PLAYFIELD_H, PLAYFIELD_W, PREVIEW_VALUE};
use crate::grid::{Grid, at};
use crate::shared::X;
use crate::grid::repainted;
use crate::tetromino::{Tetromino, clamp, playfield_x, playfield_y};
use crate::world::World;
use std::ops::ControlFlow;

verus! {

/// The piece, its top left corner at (`tx`, `ty`), meets a cell that is
/// neither empty nor a preview mark.
pub open spec fn blocked(floor: Grid, pos: Seq<(usize, usize)>, tx: int, ty: int) -> bool {
    exists|j: int| 0 <= j < pos.len() && #[trigger] cell_blocks(floor, pos, tx, ty, j)
}

/// Cell `j` of the piece, its top left corner at (`tx`, `ty`), meets a cell
/// that is neither empty nor a preview mark.
pub open spec fn cell_blocks(floor: Grid, pos: Seq<(usize, usize)>, tx: int, ty: int, j: int) -> bool {
    let v = at(floor, tx + pos[j].0, ty + pos[j].1);
    v != 0 && v != PREVIEW_VALUE
}

/// The piece can fall in column `c` through every row after `y0` down to `y1`.
pub open spec fn column_clear(floor: Grid, pos: Seq<(usize, usize)>, c: int, y0: int, y1: int) -> bool {
    forall|ty: int| y0 < ty <= y1 ==> !#[trigger] blocked(floor, pos, c, ty)
}

/// The columns below `n` in which the piece can fall from row `y0` to `y1`, in order.
pub open spec fn valid_columns(floor: Grid, pos: Seq<(usize, usize)>, n: int, y0: int, y1: int) -> Seq<usize>
    decreases n,
{
    if n <= 0 {
        Seq::empty()
    } else {
        let prev = valid_columns(floor, pos, n - 1, y0, y1);
        if column_clear(floor, pos, n - 1, y0, y1) {
            prev.push((n - 1) as usize)
        } else {
            prev
        }
    }
}

/// The valid columns below `n` are exactly the clear ones, each below `n`.
pub proof fn lemma_valid_columns(floor: Grid, pos: Seq<(usize, usize)>, n: int, y0: int, y1: int)
    requires
        0 <= n <= PLAYFIELD_W + 1,
    ensures
        forall|k: int|
            0 <= k < valid_columns(floor, pos, n, y0, y1).len() ==> #[trigger] valid_columns(
                floor,
                pos,
                n,
                y0,
                y1,
            )[k] < n,
        forall|c: usize|
            #[trigger] valid_columns(floor, pos, n, y0, y1).contains(c) <==> c < n && column_clear(
                floor,
                pos,
                c as int,
                y0,
                y1,
            ),
    decreases n,
{
    if n > 0 {
        lemma_valid_columns(floor, pos, n - 1, y0, y1);
        let prev = valid_columns(floor, pos, n - 1, y0, y1);
        let cur = valid_columns(floor, pos, n, y0, y1);
        if column_clear(floor, pos, n - 1, y0, y1) {
            assert(cur == prev.push((n - 1) as usize));
            assert forall|c: usize| #[trigger] cur.contains(c) <==> c < n && column_clear(
                floor,
                pos,
                c as int,
                y0,
                y1,
            ) by {
                if cur.contains(c) {
                    let k = choose|k: int| 0 <= k < cur.len() && cur[k] == c;
                    if k < prev.len() {
                        assert(prev[k] == c);
                        assert(prev.contains(c));
                    }
                }
                if c < n && column_clear(floor, pos, c as int, y0, y1) {
                    if c == n - 1 {
                        assert(cur[prev.len() as int] == c);
                    } else {
                        assert(prev.contains(c));
                        let k = choose|k: int| 0 <= k < prev.len() && prev[k] == c;
                        assert(cur[k] == c);
                    }
                }
            }
        } else {
            assert(cur == prev);
        }
    }
}

/// The piece slides along row `ty` from column `from` to column `to` unblocked.
pub open spec fn slide_clear(floor: Grid, pos: Seq<(usize, usize)>, from: int, to: int, ty: int) -> bool {
    forall|tx: int| from <= tx <= to ==> !#[trigger] blocked(floor, pos, tx, ty)
}

/// Every valid column on the right of `nx` slides left to `nx` unblocked.
pub open spec fn rights_clear(floor: Grid, pos: Seq<(usize, usize)>, valid: Seq<usize>, nx: int, ny: int) -> bool {
    forall|i: int|
        0 <= i < valid.len() && #[trigger] valid[i] >= nx ==> slide_clear(floor, pos, nx, valid[i] - 1, ny)
}

/// Every valid column on the left of `nx` slides right to `nx` unblocked.
pub open spec fn lefts_clear(floor: Grid, pos: Seq<(usize, usize)>, valid: Seq<usize>, nx: int, ny: int) -> bool {
    forall|i: int|
        0 <= i < valid.len() && #[trigger] valid[i] < nx ==> slide_clear(floor, pos, valid[i] + 1, nx, ny)
}

/// Each valid column with the side of `nx` it lies on.
pub open spec fn with_direction(valid: Seq<usize>, nx: int) -> Seq<(usize, X)> {
    valid.map_values(|c: usize| (c, if c < nx { X::Left } else { X::Right }))
}

/// The cell (`x`, `y`) is covered by the piece in row `ny` of some valid column.
pub open spec fn previewed(pos: Seq<(usize, usize)>, valid: Seq<usize>, ny: int, x: int, y: int) -> bool {
    exists|j: int, i: int|
        0 <= j < pos.len() && 0 <= i < valid.len() && (#[trigger] pos[j]).0 + (#[trigger] valid[i]) == x
            && pos[j].1 + ny == y
}

/// `new` is `old` with each previewed cell that is not ground marked as a preview.
pub open spec fn preview_painted(old: Grid, new: Grid, pos: Seq<(usize, usize)>, valid: Seq<usize>, ny: int) -> bool {
    forall|x: int, y: int|
        0 <= x < PLAYFIELD_W && 0 <= y < PLAYFIELD_H ==> #[trigger] at(new, x, y) == if previewed(pos, valid, ny, x, y)
            && at(old, x, y) != DEBUG_GROUND {
            PREVIEW_VALUE
        } else {
            at(old, x, y)
        }
}

/// The piece cells stay on the grid with the top left corner anywhere in the
/// box from (0, 0) to (`mx`, `my`).
pub open spec fn within(pos: Seq<(usize, usize)>, mx: int, my: int) -> bool {
    forall|j: int| 0 <= j < pos.len() ==> (#[trigger] pos[j]).0 + mx < PLAYFIELD_W && pos[j].1 + my < PLAYFIELD_H
}

/// Tests the piece with its top left corner at (`test_x`, `test_y`); the first
/// cell that meets a cell neither empty nor a preview mark is returned with
/// the corner.
pub fn test_collision_at(
    positions: [(usize, usize); 4],
    test_x: usize,
    test_y: usize,
    world: &World,
) -> (r: ControlFlow<[(usize, usize); 2]>)
    requires
        within(positions@, test_x as int, test_y as int),
    ensures
        match r {
            ControlFlow::Break(hit) => blocked(world.floor, positions@, test_x as int, test_y as int)
                && hit@[1] == (test_x, test_y) && exists|j: int|
                0 <= j < 4 && hit@[0] == positions@[j] && cell_blocks(world.floor, positions@, test_x as int, test_y as int, j)
                    && forall|i: int| 0 <= i < j ==> !cell_blocks(world.floor, positions@, test_x as int, test_y as int, i),
            ControlFlow::Continue(_) => !blocked(world.floor, positions@, test_x as int, test_y as int),
        },
{
    let mut j: usize = 0;
    while j < 4
        invariant
            j <= 4,
            within(positions@, test_x as int, test_y as int),
            forall|i: int| 0 <= i < j ==> !cell_blocks(world.floor, positions@, test_x as int, test_y as int, i),
        decreases 4 - j,
    {
        let (tetro_x, tetro_y) = positions[j];
        assert(positions@[j as int] == (tetro_x, tetro_y));
        let v = world.floor[test_x + tetro_x][test_y + tetro_y];
        if v != 0 && v != PREVIEW_VALUE {
            assert(cell_blocks(world.floor, positions@, test_x as int, test_y as int, j as int));
            let hit = [(tetro_x, tetro_y), (test_x, test_y)];
            assert(hit@[0] == positions@[j as int] && hit@[1] == (test_x, test_y));
            return ControlFlow::Break(hit);
        }
        j += 1;
    }
    ControlFlow::Continue(())
}

/// Whether every valid column on the right of `next_x` slides left to it
/// along row `next_y` unblocked.
pub fn right_move(
    positions: [(usize, usize); 4],
    valid_columns: &Vec<(usize, X)>,
    next_x: usize,
    next_y: usize,
    world: &World,
) -> (r: ControlFlow<()>)
    requires
        forall|i: int| 0 <= i < valid_columns@.len() ==> within(positions@, (#[trigger] valid_columns@[i]).0 as int, next_y as int),
        forall|i: int| 0 <= i < valid_columns@.len() && (#[trigger] valid_columns@[i]).1 == X::Right ==> valid_columns@[i].0 > next_x,
    ensures
        r is Continue <==> forall|i: int|
            0 <= i < valid_columns@.len() && (#[trigger] valid_columns@[i]).1 == X::Right ==> slide_clear(
                world.floor,
                positions@,
                next_x as int,
                valid_columns@[i].0 - 1,
                next_y as int,
            ),
{
    let mut i: usize = 0;
    while i < valid_columns.len()
        invariant
            i <= valid_columns@.len(),
            forall|k: int| 0 <= k < valid_columns@.len() ==> within(positions@, (#[trigger] valid_columns@[k]).0 as int, next_y as int),
            forall|k: int| 0 <= k < valid_columns@.len() && (#[trigger] valid_columns@[k]).1 == X::Right ==> valid_columns@[k].0 > next_x,
            forall|k: int|
                0 <= k < i && (#[trigger] valid_columns@[k]).1 == X::Right ==> slide_clear(
                    world.floor,
                    positions@,
                    next_x as int,
                    valid_columns@[k].0 - 1,
                    next_y as int,
                ),
        decreases valid_columns@.len() - i,
    {
        let (col, direction) = valid_columns[i];
        if direction == X::Right {
            let mut test_x: usize = col;
            while test_x > next_x
                invariant
                    next_x <= test_x <= col,
                    i < valid_columns@.len(),
                    valid_columns@[i as int] == (col, direction),
                    direction == X::Right,
                    within(positions@, col as int, next_y as int),
                    forall|tx: int| test_x <= tx <= col - 1 ==> !#[trigger] blocked(world.floor, positions@, tx, next_y as int),
                decreases test_x,
            {
                test_x -= 1;
                assert(within(positions@, test_x as int, next_y as int));
                if let ControlFlow::Break(_) = test_collision_at(positions, test_x, next_y, world) {
                    assert(valid_columns@[i as int] == (col, direction));
                    assert(!slide_clear(world.floor, positions@, next_x as int, col - 1, next_y as int));
                    return ControlFlow::Break(());
                }
            }
        }
        i += 1;
    }
    ControlFlow::Continue(())
}

/// Whether every valid column on the left of `next_x` slides right to it
/// along row `next_y` unblocked.
pub fn left_move(
    positions: [(usize, usize); 4],
    valid_columns: &Vec<(usize, X)>,
    next_x: usize,
    next_y: usize,
    world: &World,
) -> (r: ControlFlow<()>)
    requires
        within(positions@, next_x as int, next_y as int),
        forall|i: int| 0 <= i < valid_columns@.len() && (#[trigger] valid_columns@[i]).1 == X::Left ==> valid_columns@[i].0 < next_x,
    ensures
        r is Continue <==> forall|i: int|
            0 <= i < valid_columns@.len() && (#[trigger] valid_columns@[i]).1 == X::Left ==> slide_clear(
                world.floor,
                positions@,
                valid_columns@[i].0 + 1,
                next_x as int,
                next_y as int,
            ),
{
    let mut i: usize = 0;
    while i < valid_columns.len()
        invariant
            i <= valid_columns@.len(),
            within(positions@, next_x as int, next_y as int),
            forall|k: int| 0 <= k < valid_columns@.len() && (#[trigger] valid_columns@[k]).1 == X::Left ==> valid_columns@[k].0 < next_x,
            forall|k: int|
                0 <= k < i && (#[trigger] valid_columns@[k]).1 == X::Left ==> slide_clear(
                    world.floor,
                    positions@,
                    valid_columns@[k].0 + 1,
                    next_x as int,
                    next_y as int,
                ),
        decreases valid_columns@.len() - i,
    {
        let (col, direction) = valid_columns[i];
        assert(positions@[0].0 + next_x < PLAYFIELD_W);
        if direction == X::Left {
            let mut test_x: usize = col + 1;
            while test_x <= next_x
                invariant
                    col + 1 <= test_x <= next_x + 1,
                    i < valid_columns@.len(),
                    valid_columns@[i as int] == (col, direction),
                    direction == X::Left,
                    within(positions@, next_x as int, next_y as int),
                    forall|tx: int| col + 1 <= tx < test_x ==> !#[trigger] blocked(world.floor, positions@, tx, next_y as int),
                decreases next_x + 1 - test_x,
            {
                assert(positions@[0].0 + next_x < PLAYFIELD_W);
                if let ControlFlow::Break(_) = test_collision_at(positions, test_x, next_y, world) {
                    assert(valid_columns@[i as int] == (col, direction));
                    assert(!slide_clear(world.floor, positions@, col + 1, next_x as int, next_y as int));
                    return ControlFlow::Break(());
                }
                test_x += 1;
            }
        }
        i += 1;
    }
    ControlFlow::Continue(())
}

/// The cell (`x`, `y`) is covered by the piece cells before `j`, or by cell
/// `j` in the valid columns before `i`, in row `ny`.
pub open spec fn previewed_upto(
    pos: Seq<(usize, usize)>,
    valid: Seq<usize>,
    ny: int,
    j: int,
    i: int,
    x: int,
    y: int,
) -> bool {
    exists|j2: int, i2: int|
        0 <= j2 < pos.len() && 0 <= i2 < valid.len() && (j2 < j || (j2 == j && i2 < i)) && (
        #[trigger] pos[j2]).0 + (#[trigger] valid[i2]) == x && pos[j2].1 + ny == y
}

/// The columns in which the piece can fall from its row down to row `ny`.
pub open spec fn legal_columns(t: Tetromino, floor: Grid, ny: int) -> Seq<usize> {
    valid_columns(
        floor,
        t.relative_cells(),
        PLAYFIELD_W - t.playfield.size.x + 1,
        t.playfield.coord.y as int,
        ny,
    )
}

/// `new` is `floor` with the rows where the piece could land marked as a preview.
pub open spec fn legal_preview(t: Tetromino, floor: Grid, new: Grid, nx: int, ny: int) -> bool {
    preview_painted(floor, new, t.relative_cells(), legal_columns(t, floor, ny), ny)
}

/// Whether the piece may be taken to (`nx`, `ny`), judged on the previewed floor `new`.
pub open spec fn legal_result(t: Tetromino, floor: Grid, new: Grid, nx: int, ny: int) -> bool {
    let pos = t.relative_cells();
    let valid = legal_columns(t, floor, ny);
    valid.len() > 0 && (valid.contains(nx as usize) || rights_clear(new, pos, valid, nx, ny) || lefts_clear(
        new,
        pos,
        valid,
        nx,
        ny,
    ))
}

impl Tetromino {
    /// Whether the piece may be taken to column `next_x`, row `next_y`: it
    /// must fall unblocked from its row to `next_y` in some column, and then
    /// that column must be `next_x` itself, or every such column on one side
    /// must slide to `next_x` unblocked. The rows where it could land are
    /// marked as a preview on the floor.
    pub fn hit_legal_move(&mut self, next_x: usize, next_y: usize, world: &mut World) -> (r: bool)
        requires
            old(self).wf(),
            next_x + old(self).playfield.size.x <= PLAYFIELD_W,
            next_y + old(self).playfield.size.y <= PLAYFIELD_H,
        ensures
            legal_preview(*old(self), old(world).floor, final(world).floor, next_x as int, next_y as int),
            r == legal_result(*old(self), old(world).floor, final(world).floor, next_x as int, next_y as int),
            final(world).game == old(world).game,
            *final(self) == *old(self),
    {
        let ghost floor0 = world.floor;
        proof {
            self.lemma_cells();
        }
        let piece_positions = self.relative_positions();
        let ghost pos = piece_positions@;
        let size_x = self.playfield.size.x;
        let initial_y = self.playfield.coord.y;
        let max_x = PLAYFIELD_W - size_x;
        let mut valid: Vec<usize> = Vec::new();
        let mut test_x: usize = 0;
        while test_x <= max_x
            invariant
                self.wf(),
                pos == self.relative_cells(),
                pos == piece_positions@,
                size_x == self.playfield.size.x,
                max_x == PLAYFIELD_W - size_x,
                next_y + self.playfield.size.y <= PLAYFIELD_H,
                initial_y == self.playfield.coord.y,
                test_x <= max_x + 1,
                world.floor == floor0,
                forall|j: int|
                    0 <= j < 4 ==> (#[trigger] pos[j]).0 < self.playfield.size.x && pos[j].1 < self.playfield.size.y,
                valid@ == valid_columns(floor0, pos, test_x as int, initial_y as int, next_y as int),
            decreases max_x + 1 - test_x,
        {
            let mut clear = true;
            let mut test_y: usize = initial_y + 1;
            while clear && test_y <= next_y
                invariant
                    initial_y + 1 <= test_y,
                    valid@ == valid_columns(floor0, pos, test_x as int, initial_y as int, next_y as int),
                    test_x <= max_x,
                    max_x == PLAYFIELD_W - size_x,
                    size_x == self.playfield.size.x,
                    next_y + self.playfield.size.y <= PLAYFIELD_H,
                    pos == piece_positions@,
                    world.floor == floor0,
                    forall|j: int|
                        0 <= j < 4 ==> (#[trigger] pos[j]).0 < self.playfield.size.x && pos[j].1 < self.playfield.size.y,
                    clear ==> forall|ty: int| initial_y < ty < test_y ==> !#[trigger] blocked(floor0, pos, test_x as int, ty),
                    !clear ==> !column_clear(floor0, pos, test_x as int, initial_y as int, next_y as int),
                decreases next_y + 1 - test_y + (if clear { 1int } else { 0int }),
            {
                assert(within(pos, test_x as int, test_y as int));
                if let ControlFlow::Break(_) = test_collision_at(piece_positions, test_x, test_y, world) {
                    clear = false;
                    assert(blocked(floor0, pos, test_x as int, test_y as int));
                } else {
                    test_y += 1;
                }
            }
            assert(clear == column_clear(floor0, pos, test_x as int, initial_y as int, next_y as int));
            if clear {
                valid.push(test_x);
            }
            assert(valid_columns(floor0, pos, test_x + 1, initial_y as int, next_y as int) == if clear {
                valid_columns(floor0, pos, test_x as int, initial_y as int, next_y as int).push(test_x)
            } else {
                valid_columns(floor0, pos, test_x as int, initial_y as int, next_y as int)
            });
            test_x += 1;
        }
        if valid.len() == 0 {
            return false;
        }
        let ghost vs = valid@;
        proof {
            lemma_valid_columns(floor0, pos, max_x + 1, initial_y as int, next_y as int);
        }
        let mut j: usize = 0;
        while j < 4
            invariant
                j <= 4,
                vs == valid@,
                pos == piece_positions@,
                world.game == old(world).game,
                forall|k: int| 0 <= k < vs.len() ==> #[trigger] vs[k] <= max_x,
                max_x == PLAYFIELD_W - self.playfield.size.x,
                next_y + self.playfield.size.y <= PLAYFIELD_H,
                forall|k: int|
                    0 <= k < 4 ==> (#[trigger] pos[k]).0 < self.playfield.size.x && pos[k].1 < self.playfield.size.y,
                forall|x: int, y: int|
                    0 <= x < PLAYFIELD_W && 0 <= y < PLAYFIELD_H ==> #[trigger] at(world.floor, x, y)
                        == if previewed_upto(pos, vs, next_y as int, j as int, 0, x, y) && at(floor0, x, y)
                        != DEBUG_GROUND {
                        PREVIEW_VALUE
                    } else {
                        at(floor0, x, y)
                    },
            decreases 4 - j,
        {
            let (piece_x, piece_y) = piece_positions[j];
            let mut i: usize = 0;
            while i < valid.len()
                invariant
                    j < 4,
                    i <= vs.len(),
                    vs == valid@,
                    pos == piece_positions@,
                    (piece_x, piece_y) == pos[j as int],
                    world.game == old(world).game,
                    forall|k: int| 0 <= k < vs.len() ==> #[trigger] vs[k] <= max_x,
                    max_x == PLAYFIELD_W - self.playfield.size.x,
                    next_y + self.playfield.size.y <= PLAYFIELD_H,
                    forall|k: int|
                        0 <= k < 4 ==> (#[trigger] pos[k]).0 < self.playfield.size.x && pos[k].1 < self.playfield.size.y,
                    forall|x: int, y: int|
                        0 <= x < PLAYFIELD_W && 0 <= y < PLAYFIELD_H ==> #[trigger] at(world.floor, x, y)
                            == if previewed_upto(pos, vs, next_y as int, j as int, i as int, x, y) && at(floor0, x, y)
                            != DEBUG_GROUND {
                            PREVIEW_VALUE
                        } else {
                            at(floor0, x, y)
                        },
                decreases vs.len() - i,
            {
                let col = valid[i];
                let x = piece_x + col;
                let y = piece_y + next_y;
                let ghost prev = world.floor;
                if world.floor[x][y] != DEBUG_GROUND {
                    world.floor[x][y] = PREVIEW_VALUE;
                }
                assert forall|x2: int, y2: int|
                    0 <= x2 < PLAYFIELD_W && 0 <= y2 < PLAYFIELD_H implies #[trigger] at(world.floor, x2, y2)
                    == if previewed_upto(pos, vs, next_y as int, j as int, i + 1, x2, y2) && at(floor0, x2, y2)
                    != DEBUG_GROUND {
                    PREVIEW_VALUE
                } else {
                    at(floor0, x2, y2)
                } by {
                    assert(at(prev, x2, y2) == if previewed_upto(pos, vs, next_y as int, j as int, i as int, x2, y2) && at(floor0, x2, y2)
                    != DEBUG_GROUND {
                        PREVIEW_VALUE
                    } else {
                        at(floor0, x2, y2)
                    });
                    if x2 != x {
                        assert(world.floor@[x2] == prev@[x2]);
                    }
                    if previewed_upto(pos, vs, next_y as int, j as int, i + 1, x2, y2) {
                        let (j2, i2) = choose|j2: int, i2: int|
                            0 <= j2 < pos.len() && 0 <= i2 < vs.len() && (j2 < j || (j2 == j && i2 < i + 1)) && (
                            #[trigger] pos[j2]).0 + (#[trigger] vs[i2]) == x2 && pos[j2].1 + next_y == y2;
                        if !(j2 == j && i2 == i) {
                            assert(previewed_upto(pos, vs, next_y as int, j as int, i as int, x2, y2));
                        }
                    }
                    if x2 == x && y2 == y {
                        assert(vs[i as int] == col);
                        assert(previewed_upto(pos, vs, next_y as int, j as int, i + 1, x2, y2));
                    }
                    if previewed_upto(pos, vs, next_y as int, j as int, i as int, x2, y2) {
                        let (j2, i2) = choose|j2: int, i2: int|
                            0 <= j2 < pos.len() && 0 <= i2 < vs.len() && (j2 < j || (j2 == j && i2 < i)) && (
                            #[trigger] pos[j2]).0 + (#[trigger] vs[i2]) == x2 && pos[j2].1 + next_y == y2;
                        assert(previewed_upto(pos, vs, next_y as int, j as int, i + 1, x2, y2));
                    }
                }
                i += 1;
            }
            assert forall|x2: int, y2: int|
                0 <= x2 < PLAYFIELD_W && 0 <= y2 < PLAYFIELD_H implies previewed_upto(pos, vs, next_y as int, j as int, vs.len() as int, x2, y2)
                == previewed_upto(pos, vs, next_y as int, j + 1, 0, x2, y2) by {
                if previewed_upto(pos, vs, next_y as int, j + 1, 0, x2, y2) {
                    let (j2, i2) = choose|j2: int, i2: int|
                        0 <= j2 < pos.len() && 0 <= i2 < vs.len() && (j2 < j + 1 || (j2 == j + 1 && i2 < 0)) && (
                        #[trigger] pos[j2]).0 + (#[trigger] vs[i2]) == x2 && pos[j2].1 + next_y == y2;
                    assert(previewed_upto(pos, vs, next_y as int, j as int, vs.len() as int, x2, y2));
                }
            }
            j += 1;
        }
        proof {
            assert forall|x2: int, y2: int|
                0 <= x2 < PLAYFIELD_W && 0 <= y2 < PLAYFIELD_H implies previewed_upto(pos, vs, next_y as int, 4, 0, x2, y2)
                == previewed(pos, vs, next_y as int, x2, y2) by {
                if previewed(pos, vs, next_y as int, x2, y2) {
                    let (j2, i2) = choose|j2: int, i2: int|
                        0 <= j2 < pos.len() && 0 <= i2 < vs.len() && (#[trigger] pos[j2]).0 + (#[trigger] vs[i2]) == x2
                            && pos[j2].1 + next_y == y2;
                    assert(previewed_upto(pos, vs, next_y as int, 4, 0, x2, y2));
                }
            }
        }
        let mut with_x_direction: Vec<(usize, X)> = Vec::new();
        let mut k: usize = 0;
        while k < valid.len()
            invariant
                k <= vs.len(),
                vs == valid@,
                with_x_direction@ == with_direction(vs, next_x as int).take(k as int),
            decreases vs.len() - k,
        {
            let xn = valid[k];
            let direction = if xn < next_x { X::Left } else { X::Right };
            with_x_direction.push((xn, direction));
            assert(with_direction(vs, next_x as int).take(k + 1) =~= with_direction(vs, next_x as int).take(k as int).push((xn, direction)));
            k += 1;
        }
        assert(with_direction(vs, next_x as int).take(vs.len() as int) =~= with_direction(vs, next_x as int));
        let mut contains = false;
        let mut k: usize = 0;
        while k < valid.len()
            invariant
                k <= vs.len(),
                vs == valid@,
                contains == exists|i: int| 0 <= i < k && vs[i] == next_x,
            decreases vs.len() - k,
        {
            if valid[k] == next_x {
                contains = true;
            }
            k += 1;
        }
        proof {
            self.lemma_cells();
            assert(contains == vs.contains(next_x));
        }
        if contains {
            return true;
        }
        let ghost dirs = with_x_direction@;
        proof {
            assert forall|i: int| 0 <= i < dirs.len() implies within(pos, (#[trigger] dirs[i]).0 as int, next_y as int) by {
                assert(dirs[i].0 == vs[i]);
            }
            assert forall|i: int| 0 <= i < dirs.len() && (#[trigger] dirs[i]).1 == X::Right implies dirs[i].0 > next_x by {
                assert(dirs[i].0 == vs[i]);
            }
            assert forall|i: int| 0 <= i < dirs.len() && (#[trigger] dirs[i]).1 == X::Left implies dirs[i].0 < next_x by {
                assert(dirs[i].0 == vs[i]);
            }
            assert(within(pos, next_x as int, next_y as int));
        }
        proof {
            let fl = world.floor;
            assert(rights_clear(fl, pos, vs, next_x as int, next_y as int) <==> forall|i: int|
                0 <= i < dirs.len() && (#[trigger] dirs[i]).1 == X::Right ==> slide_clear(fl, pos, next_x as int, dirs[i].0 - 1, next_y as int)) by {
                assert forall|i: int| 0 <= i < vs.len() implies (#[trigger] vs[i] >= next_x) == (dirs[i].1 == X::Right) && dirs[i].0 == vs[i] by {}
            }
            assert(lefts_clear(fl, pos, vs, next_x as int, next_y as int) <==> forall|i: int|
                0 <= i < dirs.len() && (#[trigger] dirs[i]).1 == X::Left ==> slide_clear(fl, pos, dirs[i].0 + 1, next_x as int, next_y as int)) by {
                assert forall|i: int| 0 <= i < vs.len() implies (#[trigger] vs[i] < next_x) == (dirs[i].1 == X::Left) && dirs[i].0 == vs[i] by {}
            }
        }
        if let ControlFlow::Continue(_) = right_move(piece_positions, &with_x_direction, next_x, next_y, world) {
            return true;
        }
        match left_move(piece_positions, &with_x_direction, next_x, next_y, world) {
            ControlFlow::Continue(_) => true,
            ControlFlow::Break(_) => false,
        }
    }
}

impl Tetromino {
    /// A pick of the cell (`x`, `y`) as the piece's target: the old preview
    /// is cleared, and when the move is legal the piece goes there (held
    /// inside the playfield).
    pub fn pick_target(&mut self, world: &mut World, x: i64, y: i64) -> (r: bool)
        requires
            old(self).wf(),
        ensures
            final(self).wf(),
            ({
                let nx = clamp(x as int, 0, PLAYFIELD_W - old(self).playfield.size.x);
                let ny = clamp(y as int, 0, PLAYFIELD_H - old(self).playfield.size.y);
                let t = Tetromino { pristine: false, ..*old(self) };
                exists|cleared: Grid|
                    repainted(old(world).floor, cleared, PREVIEW_VALUE, 0) && legal_preview(
                        t,
                        cleared,
                        final(world).floor,
                        nx,
                        ny,
                    ) && r == legal_result(t, cleared, final(world).floor, nx, ny) && *final(self) == if r {
                        Tetromino {
                            playfield: crate::tetromino::Playfield {
                                coord: crate::tetromino::Coord { x: nx as usize, y: ny as usize },
                                ..t.playfield
                            },
                            ..t
                        }
                    } else {
                        t
                    }
            }),
            final(world).game == old(world).game,
    {
        self.pristine = false;
        world.debug_remove_helpers();
        let ghost cleared = world.floor;
        let next_x = playfield_x(x, self.playfield.size.x);
        let next_y = playfield_y(y, self.playfield.size.y);
        let legal = self.hit_legal_move(next_x, next_y, world);
        if legal {
            self.update_positions(x, y);
        }
        legal
    }
}

/// The piece moved to the column and row asked for, held inside the playfield.
pub open spec fn moved_to(t: Tetromino, x: int, y: int) -> Tetromino {
    Tetromino {
        playfield: crate::tetromino::Playfield {
            coord: crate::tetromino::Coord {
                x: clamp(x, 0, PLAYFIELD_W - t.playfield.size.x) as usize,
                y: clamp(y, 0, PLAYFIELD_H - t.playfield.size.y) as usize,
            },
            ..t.playfield
        },
        ..t
    }
}

impl Tetromino {
    /// A sideways move: the piece goes to the column and row asked for, and
    /// when it covers a floor cell that is not empty there it steps back to
    /// column `back_x`. Returns whether it stepped back.
    pub fn slide(&mut self, world: &World, x: i64, y: i64, back_x: i64) -> (r: bool)
        requires
            old(self).wf(),
        ensures
            final(self).wf(),
            r == crate::grid::hits(world.floor, moved_to(*old(self), x as int, y as int).current_cells(), 0),
            *final(self) == if r {
                moved_to(*old(self), back_x as int, y as int)
            } else {
                moved_to(*old(self), x as int, y as int)
            },
    {
        self.update_positions(x, y);
        proof {
            self.lemma_cells();
            assert(crate::grid::fits(self.current_cells(), 0));
        }
        let cells = self.process_current_positions();
        if crate::grid::collides_at(&world.floor, &cells, 0) {
            self.update_positions(back_x, y);
            true
        } else {
            false
        }
    }
}

/// One input to a falling piece within a frame; positions are grid cells
/// (column, row) before they are held inside the playfield.
#[derive(Debug, Clone, Copy, PartialEq, Eq, Structural)]
pub enum PieceInput {
    /// A movement key is down: the piece is no longer untouched.
    Touch,
    /// A sideways move to (`x`, `y`), stepping back to column `back_x` when blocked.
    Shift { x: i64, y: i64, back_x: i64 },
    /// The piece is placed at (`x`, `y`).
    Place { x: i64, y: i64 },
    /// A quarter turn, then the piece is placed at (`x`, `y`).
    Rotate { x: i64, y: i64 },
    /// The piece leaves play.
    Leave,
    /// The cell (`x`, `y`) is picked as the piece's target.
    Pick { x: i64, y: i64 },
    /// The open cells reached from the corner are marked.
    FillOpen,
    /// Every empty floor cell becomes a hole.
    MarkHoles,
    /// The marks of the open cells reached from the corner are cleared.
    ClearOpen,
}

impl Tetromino {
    /// Applies one input to the piece and the world. Returns whether a
    /// sideways move stepped back, or whether a picked target was legal;
    /// false for the other inputs.
    pub fn update(&mut self, world: &mut World, input: PieceInput) -> (r: bool)
        requires
            old(self).wf(),
        ensures
            final(self).wf(),
            final(world).game == old(world).game,
            match input {
                PieceInput::Touch => !r && *final(self) == (Tetromino { pristine: false, ..*old(self) })
                    && final(world).floor == old(world).floor,
                PieceInput::Shift { x, y, back_x } => final(world).floor == old(world).floor && r
                    == crate::grid::hits(old(world).floor, moved_to(*old(self), x as int, y as int).current_cells(), 0)
                    && *final(self) == if r {
                    moved_to(*old(self), back_x as int, y as int)
                } else {
                    moved_to(*old(self), x as int, y as int)
                },
                PieceInput::Place { x, y } => !r && *final(self) == moved_to(*old(self), x as int, y as int)
                    && final(world).floor == old(world).floor,
                PieceInput::Rotate { x, y } => !r && final(world).floor == old(world).floor
                    && final(self).kind == old(self).kind
                    && final(self).current_rotation == old(self).current_rotation.next()
                    && final(self).playfield.coord.x == clamp(x as int, 0, PLAYFIELD_W - final(self).playfield.size.x)
                    && final(self).playfield.coord.y == clamp(y as int, 0, PLAYFIELD_H - final(self).playfield.size.y)
                    && final(self).in_game == old(self).in_game
                    && final(self).pristine == old(self).pristine,
                PieceInput::Leave => !r && *final(self) == (Tetromino { in_game: false, ..*old(self) })
                    && final(world).floor == old(world).floor,
                PieceInput::Pick { x, y } => {
                    let nx = clamp(x as int, 0, PLAYFIELD_W - old(self).playfield.size.x);
                    let ny = clamp(y as int, 0, PLAYFIELD_H - old(self).playfield.size.y);
                    let t = Tetromino { pristine: false, ..*old(self) };
                    exists|cleared: Grid|
                        repainted(old(world).floor, cleared, PREVIEW_VALUE, 0) && legal_preview(
                            t,
                            cleared,
                            final(world).floor,
                            nx,
                            ny,
                        ) && r == legal_result(t, cleared, final(world).floor, nx, ny) && *final(self) == if r {
                            moved_to(t, x as int, y as int)
                        } else {
                            t
                        }
                },
                PieceInput::FillOpen => !r && *final(self) == *old(self) && crate::flood::corner_flooded(
                    old(world).floor,
                    final(world).floor,
                    0,
                    crate::constants::PLAYABLE_VALUE,
                ),
                PieceInput::MarkHoles => !r && *final(self) == *old(self) && repainted(
                    old(world).floor,
                    final(world).floor,
                    0,
                    crate::constants::HOLE_VALUE,
                ),
                PieceInput::ClearOpen => !r && *final(self) == *old(self) && crate::flood::corner_flooded(
                    old(world).floor,
                    final(world).floor,
                    crate::constants::PLAYABLE_VALUE,
                    0,
                ),
            },
    {
        match input {
            PieceInput::Touch => {
                self.pristine = false;
                false
            },
            PieceInput::Shift { x, y, back_x } => self.slide(world, x, y, back_x),
            PieceInput::Place { x, y } => {
                self.update_positions(x, y);
                false
            },
            PieceInput::Rotate { x, y } => {
                self.rotate(x, y);
                false
            },
            PieceInput::Leave => {
                self.in_game = false;
                false
            },
            PieceInput::Pick { x, y } => self.pick_target(world, x, y),
            PieceInput::FillOpen => {
                world.flood_from_corner(0, crate::constants::PLAYABLE_VALUE);
                false
            },
            PieceInput::MarkHoles => {
                world.filter_and_paint(0, crate::constants::HOLE_VALUE);
                false
            },
            PieceInput::ClearOpen => {
                world.flood_from_corner(crate::constants::PLAYABLE_VALUE, 0);
                false
            },
        }
    }
}

} // verus!
