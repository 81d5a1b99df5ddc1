use vstd::prelude::*;

use crate::constants::{
    DEBUG_GROUND, H, HOLE_VALUE, IH, IW, PLAYABLE_VALUE, PLAYFIELD_H, PLAYFIELD_W, PREVIEW_VALUE, W,
};
use crate::game_configs::{ADD_STRATEGY, GROUND_OFFSET};
use crate::grid::{
    Grid, at, can_land, cells_ok, landing_exists, landing_offset, lands_at, repainted, stamp,
    stamped,
};
use crate::flood::{
    closed, count_t, flooded, in_grid, lemma_count_cleared, lemma_fill_step, lemma_flooded,
    lemma_pop_back_contains, lemma_pop_front_contains, lemma_push_contains, lemma_reach_seed,
    lemma_reach_step, only_cleared, pending, reach, sound,
};
use crate::tetromino::Tetromino;
use std::collections::VecDeque;

verus! {

/// The playfield: `game` holds the merged pieces' codes, `floor` the ground,
/// the landed cells and the markers of the placement logic.
pub struct World {
    pub game: Grid,
    pub floor: Grid,
}

/// Ways of merging a landed piece into the grids.
#[derive(Debug, Clone, Copy, PartialEq, Eq, Structural)]
pub enum Strat {
    Generic,
    Runtime,
    Duplicated,
}

/// The floor of a new world: ground on the bottom row, empty above.
pub open spec fn initial_floor(x: int, y: int) -> u8 {
    if y == H {
        DEBUG_GROUND
    } else {
        0
    }
}

impl World {
    /// An empty game grid over a floor whose bottom row is ground.
    pub fn new() -> (r: Self)
        ensures
            forall|x: int, y: int|
                0 <= x < PLAYFIELD_W && 0 <= y < PLAYFIELD_H ==> #[trigger] at(r.game, x, y) == 0
                    && at(r.floor, x, y) == initial_floor(x, y),
    {
        let game: Grid = [[0u8; PLAYFIELD_H]; PLAYFIELD_W];
        let mut floor: Grid = [[0u8; PLAYFIELD_H]; PLAYFIELD_W];
        let mut x: usize = 0;
        while x < PLAYFIELD_W
            invariant
                x <= PLAYFIELD_W,
                forall|x2: int, y: int|
                    0 <= x2 < PLAYFIELD_W && 0 <= y < PLAYFIELD_H ==> #[trigger] at(floor, x2, y)
                        == if x2 < x {
                        initial_floor(x2, y)
                    } else {
                        0
                    },
            decreases PLAYFIELD_W - x,
        {
            let ghost prev = floor;
            floor[x][H] = DEBUG_GROUND;
            assert forall|x2: int, y: int|
                0 <= x2 < PLAYFIELD_W && 0 <= y < PLAYFIELD_H implies #[trigger] at(floor, x2, y)
                == if x2 < x + 1 {
                initial_floor(x2, y)
            } else {
                0
            } by {
                if x2 != x {
                    assert(floor@[x2] == prev@[x2]);
                }
                assert(at(prev, x2, y) == if x2 < x { initial_floor(x2, y) } else { 0 });
            }
            x += 1;
        }
        World { game, floor }
    }

    /// Sets every floor cell of code `from` to `to`.
    pub fn filter_and_paint(&mut self, from: u8, to: u8)
        ensures
            repainted(old(self).floor, final(self).floor, from, to),
            final(self).game == old(self).game,
    {
        let mut x: usize = 0;
        while x < PLAYFIELD_W
            invariant
                x <= PLAYFIELD_W,
                self.game == old(self).game,
                forall|x2: int, y: int|
                    0 <= x2 < PLAYFIELD_W && 0 <= y < PLAYFIELD_H ==> #[trigger] at(self.floor, x2, y)
                        == if x2 < x && at(old(self).floor, x2, y) == from {
                        to
                    } else {
                        at(old(self).floor, x2, y)
                    },
            decreases PLAYFIELD_W - x,
        {
            let mut y: usize = 0;
            while y < PLAYFIELD_H
                invariant
                    x < PLAYFIELD_W,
                    y <= PLAYFIELD_H,
                    self.game == old(self).game,
                    forall|x2: int, y2: int|
                        0 <= x2 < PLAYFIELD_W && 0 <= y2 < PLAYFIELD_H ==> #[trigger] at(
                            self.floor,
                            x2,
                            y2,
                        ) == if (x2 < x || (x2 == x && y2 < y)) && at(old(self).floor, x2, y2)
                            == from {
                            to
                        } else {
                            at(old(self).floor, x2, y2)
                        },
                decreases PLAYFIELD_H - y,
            {
                if self.floor[x][y] == from {
                    let ghost prev = self.floor;
                    self.floor[x][y] = to;
                    assert forall|x2: int, y2: int|
                        0 <= x2 < PLAYFIELD_W && 0 <= y2 < PLAYFIELD_H implies #[trigger] at(
                        self.floor,
                        x2,
                        y2,
                    ) == if x2 == x && y2 == y {
                        to
                    } else {
                        at(prev, x2, y2)
                    } by {
                        if x2 != x {
                            assert(self.floor@[x2] == prev@[x2]);
                        }
                    }
                    assert forall|x2: int, y2: int|
                        0 <= x2 < PLAYFIELD_W && 0 <= y2 < PLAYFIELD_H implies #[trigger] at(
                        self.floor,
                        x2,
                        y2,
                    ) == if (x2 < x || (x2 == x && y2 < y + 1)) && at(old(self).floor, x2, y2)
                        == from {
                        to
                    } else {
                        at(old(self).floor, x2, y2)
                    } by {
                        assert(at(prev, x2, y2) == if (x2 < x || (x2 == x && y2 < y)) && at(
                            old(self).floor,
                            x2,
                            y2,
                        ) == from {
                            to
                        } else {
                            at(old(self).floor, x2, y2)
                        });
                    }
                } else {
                    assert(at(self.floor, x as int, y as int) == at(old(self).floor, x as int, y as int));
                }
                y += 1;
            }
            x += 1;
        }
    }

    /// Whether some cell the piece covers is ground on the floor.
    pub fn touches_ground(&self, tetro: &Tetromino) -> (r: bool)
        requires
            tetro.wf(),
        ensures
            r == exists|j: int|
                0 <= j < tetro.current_cells().len() && at(
                    self.floor,
                    (#[trigger] tetro.current_cells()[j]).0 as int,
                    tetro.current_cells()[j].1 as int,
                ) == DEBUG_GROUND,
    {
        proof {
            tetro.lemma_cells();
        }
        let cells = tetro.process_current_positions();
        let mut j: usize = 0;
        while j < cells.len()
            invariant
                j <= cells@.len(),
                cells@ == tetro.current_cells(),
                cells_ok(cells@),
                forall|i: int| 0 <= i < j ==> at(self.floor, (#[trigger] cells@[i]).0 as int, cells@[i].1 as int) != DEBUG_GROUND,
            decreases cells@.len() - j,
        {
            let (x, y, _value) = cells[j];
            if self.floor[x][y] == DEBUG_GROUND {
                return true;
            }
            j += 1;
        }
        false
    }

    /// Clears the landing preview from the floor.
    pub fn debug_remove_helpers(&mut self)
        ensures
            repainted(old(self).floor, final(self).floor, PREVIEW_VALUE, 0),
            final(self).game == old(self).game,
    {
        self.filter_and_paint(PREVIEW_VALUE, 0);
    }

    /// Whether the piece can be merged with the configured strategy without
    /// its cells leaving the grid.
    pub open spec fn mergeable(&self, tetro: Tetromino) -> bool {
        match ADD_STRATEGY {
            Strat::Generic => can_land(self.floor, tetro.current_cells(), GROUND_OFFSET as int),
            _ => can_land(self.game, tetro.bottom_cells(), 0),
        }
    }

    /// Whether `merge` can take the piece: there is room for it above the
    /// cells it would be merged onto.
    pub fn can_merge(&self, tetro: &Tetromino) -> (r: bool)
        requires
            tetro.wf(),
        ensures
            r == self.mergeable(*tetro),
    {
        proof {
            tetro.lemma_cells();
        }
        match ADD_STRATEGY {
            Strat::Generic => {
                let cells = tetro.process_current_positions();
                landing_exists(&self.floor, &cells, GROUND_OFFSET)
            },
            _ => {
                let cells = tetro.process_with_runtime();
                landing_exists(&self.game, &cells, 0)
            },
        }
    }

    /// Takes the piece out of play and merges it into the grids with the
    /// configured strategy.
    pub fn merge(&mut self, tetro: &mut Tetromino)
        requires
            old(tetro).wf(),
            old(self).mergeable(*old(tetro)),
        ensures
            *final(tetro) == (Tetromino { in_game: false, ..*old(tetro) }),
            ADD_STRATEGY == Strat::Generic ==> generic_merged(*old(self), *final(self), *old(tetro)),
            ADD_STRATEGY != Strat::Generic ==> dropped(*old(self), *final(self), *old(tetro)),
    {
        tetro.in_game = false;
        match ADD_STRATEGY {
            Strat::Generic => self.add_with_generic(tetro),
            Strat::Runtime => self.add_with_runtime(tetro),
            Strat::Duplicated => self.add_with_duplication(tetro),
        }
    }

    /// Drops the piece from the bottom of its columns to the lowest place
    /// where its cells meet only empty game cells, and writes its code there.
    pub fn add_with_runtime(&mut self, tetro: &Tetromino)
        requires
            tetro.wf(),
            can_land(old(self).game, tetro.bottom_cells(), 0),
        ensures
            exists|k: int|
                lands_at(old(self).game, tetro.bottom_cells(), 0, k) && stamped(
                    old(self).game,
                    final(self).game,
                    tetro.bottom_cells(),
                    k,
                    tetro.kind.code(),
                ),
            final(self).floor == old(self).floor,
    {
        proof {
            tetro.lemma_cells();
        }
        let cells = tetro.process_with_runtime();
        let offset = landing_offset(&self.game, &cells, 0);
        stamp(&mut self.game, &cells, offset, tetro.kind.value());
    }

    /// The same merge as `add_with_runtime`, spelled out step by step.
    pub fn add_with_duplication(&mut self, tetro: &Tetromino)
        requires
            tetro.wf(),
            can_land(old(self).game, tetro.bottom_cells(), 0),
        ensures
            exists|k: int|
                lands_at(old(self).game, tetro.bottom_cells(), 0, k) && stamped(
                    old(self).game,
                    final(self).game,
                    tetro.bottom_cells(),
                    k,
                    tetro.kind.code(),
                ),
            final(self).floor == old(self).floor,
    {
        proof {
            tetro.lemma_cells();
        }
        let cells = tetro.process_with_runtime();
        let mut offset: usize = 0;
        let ghost free = choose|k: int|
            0 <= k && crate::grid::fits(cells@, k) && !crate::grid::hits(self.game, cells@, k);
        while crate::grid::collides_at(&self.game, &cells, offset)
            invariant
                0 <= offset <= free,
                cells_ok(cells@),
                crate::grid::fits(cells@, free),
                !crate::grid::hits(self.game, cells@, free),
                crate::grid::fits(cells@, offset as int),
                forall|k2: int| 0 <= k2 < offset ==> #[trigger] crate::grid::hits(self.game, cells@, k2),
            decreases free - offset,
        {
            offset += 1;
        }
        assert(lands_at(self.game, cells@, 0, offset as int));
        stamp(&mut self.game, &cells, offset, tetro.kind.value());
    }

    /// Raises the piece from where it stands to the lowest place, from one
    /// row up, where its cells meet only empty floor cells; writes its code
    /// into the game grid and ground into the floor there.
    pub fn add_with_generic(&mut self, tetro: &Tetromino)
        requires
            tetro.wf(),
            can_land(old(self).floor, tetro.current_cells(), GROUND_OFFSET as int),
        ensures
            generic_merged(*old(self), *final(self), *tetro),
    {
        proof {
            tetro.lemma_cells();
        }
        let cells = tetro.process_current_positions();
        let offset = landing_offset(&self.floor, &cells, GROUND_OFFSET);
        stamp(&mut self.game, &cells, offset, tetro.kind.value());
        stamp(&mut self.floor, &cells, offset, DEBUG_GROUND);
        let ghost stamped_floor = self.floor;
        self.lock_playable_slots();
        let ghost locked = self.floor;
        self.fill_unplayable_holes();
        let ghost filled = self.floor;
        self.unlock_playable_slots();
        assert(holes_sealed(stamped_floor, self.floor, locked, filled));
    }

    /// Marks the open cells: the empty cells that a walk over empty cells
    /// leads to from (1, 1).
    fn lock_playable_slots(&mut self)
        ensures
            flooded(old(self).floor, final(self).floor, seal_seed(), 0, PLAYABLE_VALUE),
            final(self).game == old(self).game,
    {
        self.rusty_flood_fill(1, 1, 0, PLAYABLE_VALUE);
    }

    /// Turns every empty cell left, which no open walk reaches, into a hole.
    fn fill_unplayable_holes(&mut self)
        ensures
            repainted(old(self).floor, final(self).floor, 0, HOLE_VALUE),
            final(self).game == old(self).game,
    {
        self.filter_and_paint(0, HOLE_VALUE);
    }

    /// Clears the marks of the open cells again.
    fn unlock_playable_slots(&mut self)
        ensures
            flooded(old(self).floor, final(self).floor, seal_seed(), PLAYABLE_VALUE, 0),
            final(self).game == old(self).game,
    {
        self.rusty_flood_fill(1, 1, PLAYABLE_VALUE, 0);
    }
}

/// `new` is `old` after the piece was dropped from the bottom of its columns
/// to the lowest place where it meets only empty game cells, and its code
/// written there; the floor is kept.
pub open spec fn dropped(old: World, new: World, tetro: Tetromino) -> bool {
    &&& exists|k: int|
        lands_at(old.game, tetro.bottom_cells(), 0, k) && stamped(
            old.game,
            new.game,
            tetro.bottom_cells(),
            k,
            tetro.kind.code(),
        )
    &&& new.floor == old.floor
}

/// The cell from which open space is searched for.
pub open spec fn seal_seed() -> (int, int) {
    (1, 1)
}

/// `after` is `before` once the open cells were marked from (1, 1) (giving
/// `locked`), the empty cells left were made holes (giving `filled`), and the
/// marks were cleared again.
pub open spec fn holes_sealed(before: Grid, after: Grid, locked: Grid, filled: Grid) -> bool {
    &&& flooded(before, locked, seal_seed(), 0, PLAYABLE_VALUE)
    &&& repainted(locked, filled, 0, HOLE_VALUE)
    &&& flooded(filled, after, seal_seed(), PLAYABLE_VALUE, 0)
}

/// `new` is `old` after the piece was merged by `add_with_generic`: raised
/// by the least offset from one row up that puts it on empty floor, its code
/// written into the game grid and ground into the floor there, and then the
/// floor's enclosed empty cells turned into holes.
pub open spec fn generic_merged(old: World, new: World, tetro: Tetromino) -> bool {
    exists|k: int, mid: Grid, locked: Grid, filled: Grid|
        lands_at(old.floor, tetro.current_cells(), GROUND_OFFSET as int, k) && stamped(
            old.game,
            new.game,
            tetro.current_cells(),
            k,
            tetro.kind.code(),
        ) && stamped(old.floor, mid, tetro.current_cells(), k, DEBUG_GROUND) && holes_sealed(
            mid,
            new.floor,
            locked,
            filled,
        )
}

/// A worklist entry lies on the grid and is reached from the seed when it is
/// of code `t`.
pub open spec fn entry_ok(g0: Grid, seed: (int, int), t: u8, c: (usize, usize)) -> bool {
    &&& c.0 < PLAYFIELD_W
    &&& c.1 < PLAYFIELD_H
    &&& at(g0, c.0 as int, c.1 as int) == t ==> reach(g0, t, seed, (c.0 as int, c.1 as int))
}

/// Every worklist entry is as `entry_ok` says.
pub open spec fn queue_ok(g0: Grid, seed: (int, int), t: u8, q: Seq<(usize, usize)>) -> bool {
    forall|i: int| 0 <= i < q.len() ==> entry_ok(g0, seed, t, #[trigger] q[i])
}

/// Everything that `s1` holds, `s2` holds too.
pub open spec fn kept(s1: Seq<(usize, usize)>, s2: Seq<(usize, usize)>) -> bool {
    forall|n: (usize, usize)| s1.contains(n) ==> #[trigger] s2.contains(n)
}

/// Adds a cell's neighbour to a fill's worklist, keeping the worklist's facts.
fn push_neighbour(
    queue: &mut VecDeque<(usize, usize)>,
    n: (usize, usize),
    Ghost(g0): Ghost<Grid>,
    Ghost(seed): Ghost<(int, int)>,
    Ghost(t): Ghost<u8>,
    Ghost(from): Ghost<(int, int)>,
)
    requires
        queue_ok(g0, seed, t, old(queue)@),
        n.0 < PLAYFIELD_W,
        n.1 < PLAYFIELD_H,
        crate::flood::adjacent(from, (n.0 as int, n.1 as int)),
        at(g0, from.0, from.1) == t ==> reach(g0, t, seed, from),
        at(g0, from.0, from.1) == t,
    ensures
        final(queue)@ == old(queue)@.push(n),
        queue_ok(g0, seed, t, final(queue)@),
        kept(old(queue)@, final(queue)@),
        final(queue)@.contains(n),
{
    proof {
        lemma_push_contains(old(queue)@, n);
        if at(g0, n.0 as int, n.1 as int) == t {
            lemma_reach_step(g0, t, seed, from, (n.0 as int, n.1 as int));
        }
        let q2 = old(queue)@.push(n);
        assert forall|i: int| 0 <= i < q2.len() implies entry_ok(g0, seed, t, #[trigger] q2[i]) by {
            if i < old(queue)@.len() {
                assert(q2[i] == old(queue)@[i]);
            }
        }
    }
    queue.push_back(n);
}

/// Adds a cell's neighbour to a fill's stack, keeping the worklist's facts.
fn push_neighbour_on_stack(
    queue: &mut Vec<(usize, usize)>,
    n: (usize, usize),
    Ghost(g0): Ghost<Grid>,
    Ghost(seed): Ghost<(int, int)>,
    Ghost(t): Ghost<u8>,
    Ghost(from): Ghost<(int, int)>,
)
    requires
        queue_ok(g0, seed, t, old(queue)@),
        n.0 < PLAYFIELD_W,
        n.1 < PLAYFIELD_H,
        crate::flood::adjacent(from, (n.0 as int, n.1 as int)),
        at(g0, from.0, from.1) == t ==> reach(g0, t, seed, from),
        at(g0, from.0, from.1) == t,
    ensures
        final(queue)@ == old(queue)@.push(n),
        queue_ok(g0, seed, t, final(queue)@),
        kept(old(queue)@, final(queue)@),
        final(queue)@.contains(n),
{
    proof {
        lemma_push_contains(old(queue)@, n);
        if at(g0, n.0 as int, n.1 as int) == t {
            lemma_reach_step(g0, t, seed, from, (n.0 as int, n.1 as int));
        }
        let q2 = old(queue)@.push(n);
        assert forall|i: int| 0 <= i < q2.len() implies entry_ok(g0, seed, t, #[trigger] q2[i]) by {
            if i < old(queue)@.len() {
                assert(q2[i] == old(queue)@[i]);
            }
        }
    }
    queue.push(n);
}

/// What a worklist fill of `t` by `r` from `seed` over `g0` keeps true while
/// `q` waits: the cells listed lie on the grid and are reached when they are
/// of code `t`, and everything done so far is sound and closed up to `q`.
pub open spec fn fill_inv(
    g0: Grid,
    cur: Grid,
    seed: (int, int),
    t: u8,
    r: u8,
    q: Seq<(usize, usize)>,
) -> bool {
    &&& t != r
    &&& in_grid(seed)
    &&& queue_ok(g0, seed, t, q)
    &&& sound(g0, cur, seed, t, r)
    &&& closed(g0, cur, t, q)
    &&& pending(g0, cur, t, q, seed)
}

/// Paints the cell taken from a fill's worklist when it is still of code `t`,
/// and returns whether it did.
fn paint_if_target(floor: &mut Grid, x: usize, y: usize, t: u8, r: u8) -> (painted: bool)
    requires
        x < PLAYFIELD_W,
        y < PLAYFIELD_H,
        t != r,
    ensures
        painted == (at(*old(floor), x as int, y as int) == t),
        forall|x2: int, y2: int|
            in_grid((x2, y2)) ==> #[trigger] at(*final(floor), x2, y2) == if painted && x2 == x && y2
                == y {
                r
            } else {
                at(*old(floor), x2, y2)
            },
{
    if floor[x][y] != t {
        return false;
    }
    let ghost prev = *floor;
    floor[x][y] = r;
    assert forall|x2: int, y2: int| in_grid((x2, y2)) implies #[trigger] at(*floor, x2, y2) == if x2
        == x && y2 == y {
        r
    } else {
        at(prev, x2, y2)
    } by {
        if x2 != x {
            assert(floor@[x2] == prev@[x2]);
        }
    }
    true
}

/// The facts a fill step needs once cell (`x`, `y`) was taken from the worklist
/// and looked at: the grid is still sound, and what is waiting or done is known.
proof fn lemma_taken(
    g0: Grid,
    cur: Grid,
    cur2: Grid,
    seed: (int, int),
    t: u8,
    r: u8,
    q: Seq<(usize, usize)>,
    x: usize,
    y: usize,
    painted: bool,
)
    requires
        fill_inv(g0, cur, seed, t, r, q),
        q.contains((x, y)),
        painted == (at(cur, x as int, y as int) == t),
        forall|x2: int, y2: int|
            in_grid((x2, y2)) ==> #[trigger] at(cur2, x2, y2) == if painted && x2 == x && y2 == y {
                r
            } else {
                at(cur, x2, y2)
            },
    ensures
        sound(g0, cur2, seed, t, r),
        only_cleared(cur, cur2, t),
        painted ==> reach(g0, t, seed, (x as int, y as int)),
        at(g0, x as int, y as int) == t ==> at(cur2, x as int, y as int) != t,
        count_t(cur2, t) <= count_t(cur, t),
        painted ==> count_t(cur2, t) < count_t(cur, t),
{
    let i = choose|i: int| 0 <= i < q.len() && q[i] == (x, y);
    assert(x < PLAYFIELD_W && y < PLAYFIELD_H);
    assert(at(cur, x as int, y as int) == at(g0, x as int, y as int) || at(cur, x as int, y as int) == r);
    lemma_count_cleared(cur, cur2, t, x as int, y as int);
}

impl World {
    /// Breadth-first fill: sets to `replacement` every floor cell that a walk
    /// over cells of code `target` leads to from (`x0`, `y0`).
    pub fn rusty_flood_fill(&mut self, x0: usize, y0: usize, target: u8, replacement: u8)
        requires
            x0 < PLAYFIELD_W,
            y0 < PLAYFIELD_H,
            target != replacement,
        ensures
            flooded(old(self).floor, final(self).floor, (x0 as int, y0 as int), target, replacement),
            final(self).game == old(self).game,
    {
        let ghost g0 = self.floor;
        let ghost seed = (x0 as int, y0 as int);
        let mut queue: VecDeque<(usize, usize)> = VecDeque::new();
        queue.push_back((x0, y0));
        proof {
            lemma_push_contains(Seq::empty(), (x0, y0));
            assert(queue@ == Seq::<(usize, usize)>::empty().push((x0, y0)));
            if at(g0, x0 as int, y0 as int) == target {
                lemma_reach_seed(g0, target, seed);
            }
            assert forall|x: int, y: int|
                in_grid((x, y)) implies #[trigger] at(self.floor, x, y) == at(g0, x, y) || (at(g0, x, y)
                == target && at(self.floor, x, y) == replacement && reach(g0, target, seed, (x, y))) by {}
        }
        while queue.len() > 0
            invariant
                self.game == old(self).game,
                g0 == old(self).floor,
                seed == (x0 as int, y0 as int),
                fill_inv(g0, self.floor, seed, target, replacement, queue@),
            decreases count_t(self.floor, target), queue@.len(),
        {
            let ghost q = queue@;
            let ghost cur = self.floor;
            let (x, y) = match queue.pop_front() {
                Some(c) => c,
                None => (0, 0),
            };
            proof {
                assert(q[0] == (x, y));
                assert(queue@ == q.subrange(1, q.len() as int));
                lemma_pop_front_contains(q);
                assert(q.contains((x, y)));
            }
            let painted = paint_if_target(&mut self.floor, x, y, target, replacement);
            proof {
                lemma_taken(g0, cur, self.floor, seed, target, replacement, q, x, y, painted);
            }
            let ghost rest = queue@;
            let ghost cur2 = self.floor;
            proof {
                assert forall|i: int| 0 <= i < rest.len() implies entry_ok(g0, seed, target, #[trigger] rest[i]) by {
                    assert(rest[i] == q[i + 1]);
                }
            }
            if painted {
                let ghost from = (x as int, y as int);
                if x + 1 <= W {
                    push_neighbour(&mut queue, (x + 1, y), Ghost(g0), Ghost(seed), Ghost(target), Ghost(from));
                }
                let ghost q_a = queue@;
                if x >= 1 {
                    push_neighbour(&mut queue, (x - 1, y), Ghost(g0), Ghost(seed), Ghost(target), Ghost(from));
                }
                let ghost q_b = queue@;
                if y + 1 <= H {
                    push_neighbour(&mut queue, (x, y + 1), Ghost(g0), Ghost(seed), Ghost(target), Ghost(from));
                }
                let ghost q_c = queue@;
                if y >= 1 {
                    push_neighbour(&mut queue, (x, y - 1), Ghost(g0), Ghost(seed), Ghost(target), Ghost(from));
                }
                proof {
                    assert(kept(rest, q_a) && kept(q_a, q_b) && kept(q_b, q_c) && kept(q_c, queue@));
                    assert(kept(rest, queue@));
                    assert(x + 1 <= W ==> queue@.contains(((x + 1) as usize, y)));
                    assert(x >= 1 ==> queue@.contains(((x - 1) as usize, y)));
                    assert(y + 1 <= H ==> queue@.contains((x, (y + 1) as usize)));
                    assert(y >= 1 ==> queue@.contains((x, (y - 1) as usize)));
                }
            }
            proof {
                lemma_fill_step(g0, cur, self.floor, target, q, rest, queue@, (x as int, y as int));
                assert(pending(g0, cur, target, q, seed));
            }
        }
        proof {
            lemma_flooded(g0, self.floor, seed, target, replacement);
        }
    }
}

impl World {
    /// Depth-first fill with a stack: sets to `replacement` every floor cell
    /// that a walk over cells of code `target` leads to from (`x0`, `y0`).
    pub fn iter_flood_fill(&mut self, x0: usize, y0: usize, target: u8, replacement: u8)
        requires
            x0 < PLAYFIELD_W,
            y0 < PLAYFIELD_H,
            target != replacement,
        ensures
            flooded(old(self).floor, final(self).floor, (x0 as int, y0 as int), target, replacement),
            final(self).game == old(self).game,
    {
        let ghost g0 = self.floor;
        let ghost seed = (x0 as int, y0 as int);
        let mut stack: Vec<(usize, usize)> = Vec::new();
        stack.push((x0, y0));
        proof {
            lemma_push_contains(Seq::empty(), (x0, y0));
            assert(stack@ == Seq::<(usize, usize)>::empty().push((x0, y0)));
            if at(g0, x0 as int, y0 as int) == target {
                lemma_reach_seed(g0, target, seed);
            }
            assert forall|x: int, y: int|
                in_grid((x, y)) implies #[trigger] at(self.floor, x, y) == at(g0, x, y) || (at(g0, x, y)
                == target && at(self.floor, x, y) == replacement && reach(g0, target, seed, (x, y))) by {}
        }
        while stack.len() > 0
            invariant
                self.game == old(self).game,
                g0 == old(self).floor,
                seed == (x0 as int, y0 as int),
                fill_inv(g0, self.floor, seed, target, replacement, stack@),
            decreases count_t(self.floor, target), stack@.len(),
        {
            let ghost q = stack@;
            let ghost cur = self.floor;
            let (x, y) = match stack.pop() {
                Some(c) => c,
                None => (0, 0),
            };
            proof {
                assert(q.last() == (x, y));
                assert(stack@ == q.subrange(0, q.len() - 1));
                lemma_pop_back_contains(q);
                assert(q[q.len() - 1] == (x, y));
                assert(q.contains((x, y)));
            }
            let painted = paint_if_target(&mut self.floor, x, y, target, replacement);
            proof {
                lemma_taken(g0, cur, self.floor, seed, target, replacement, q, x, y, painted);
            }
            let ghost rest = stack@;
            proof {
                assert forall|i: int| 0 <= i < rest.len() implies entry_ok(g0, seed, target, #[trigger] rest[i]) by {
                    assert(rest[i] == q[i]);
                }
            }
            if painted {
                let ghost from = (x as int, y as int);
                if x > 0 {
                    push_neighbour_on_stack(&mut stack, (x - 1, y), Ghost(g0), Ghost(seed), Ghost(target), Ghost(from));
                }
                let ghost q_a = stack@;
                if x < W {
                    push_neighbour_on_stack(&mut stack, (x + 1, y), Ghost(g0), Ghost(seed), Ghost(target), Ghost(from));
                }
                let ghost q_b = stack@;
                if y > 0 {
                    push_neighbour_on_stack(&mut stack, (x, y - 1), Ghost(g0), Ghost(seed), Ghost(target), Ghost(from));
                }
                let ghost q_c = stack@;
                if y < H {
                    push_neighbour_on_stack(&mut stack, (x, y + 1), Ghost(g0), Ghost(seed), Ghost(target), Ghost(from));
                }
                proof {
                    assert(kept(rest, q_a) && kept(q_a, q_b) && kept(q_b, q_c) && kept(q_c, stack@));
                    assert(kept(rest, stack@));
                    assert(x + 1 <= W ==> stack@.contains(((x + 1) as usize, y)));
                    assert(x >= 1 ==> stack@.contains(((x - 1) as usize, y)));
                    assert(y + 1 <= H ==> stack@.contains((x, (y + 1) as usize)));
                    assert(y >= 1 ==> stack@.contains((x, (y - 1) as usize)));
                }
            }
            proof {
                assert(forall|n: (usize, usize)| q.contains(n) ==> n == (x, y) || #[trigger] rest.contains(n));
                lemma_fill_step(g0, cur, self.floor, target, q, rest, stack@, (x as int, y as int));
                assert(pending(g0, cur, target, q, seed));
            }
        }
        proof {
            lemma_flooded(g0, self.floor, seed, target, replacement);
        }
    }
}

/// Every cell that went from code `t` in `cur` to another code in `fin` has
/// its neighbours of code `t` in `g0` done in `fin` too.
pub open spec fn closed_new(g0: Grid, cur: Grid, fin: Grid, t: u8) -> bool {
    forall|x: int, y: int|
        in_grid((x, y)) && at(cur, x, y) == t && #[trigger] at(fin, x, y) != t ==> {
            &&& pending(g0, fin, t, Seq::empty(), (x + 1, y))
            &&& pending(g0, fin, t, Seq::empty(), (x - 1, y))
            &&& pending(g0, fin, t, Seq::empty(), (x, y + 1))
            &&& pending(g0, fin, t, Seq::empty(), (x, y - 1))
        }
}

/// Clearing cells in two steps clears them over both.
proof fn lemma_cleared_chain(a: Grid, b: Grid, c: Grid, t: u8)
    requires
        only_cleared(a, b, t),
        only_cleared(b, c, t),
    ensures
        only_cleared(a, c, t),
{
    assert forall|x: int, y: int| in_grid((x, y)) implies #[trigger] at(c, x, y) == at(a, x, y) || (at(
        a,
        x,
        y,
    ) == t && at(c, x, y) != t) by {
        assert(at(b, x, y) == at(a, x, y) || (at(a, x, y) == t && at(b, x, y) != t));
        assert(at(c, x, y) == at(b, x, y) || (at(b, x, y) == t && at(c, x, y) != t));
    }
}

/// Closing up new cells in two steps closes them up over both.
proof fn lemma_closed_new_chain(g0: Grid, a: Grid, b: Grid, c: Grid, t: u8)
    requires
        only_cleared(a, b, t),
        only_cleared(b, c, t),
        closed_new(g0, a, b, t),
        closed_new(g0, b, c, t),
    ensures
        closed_new(g0, a, c, t),
{
    assert forall|x: int, y: int|
        in_grid((x, y)) && at(a, x, y) == t && #[trigger] at(c, x, y) != t implies {
        &&& pending(g0, c, t, Seq::empty(), (x + 1, y))
        &&& pending(g0, c, t, Seq::empty(), (x - 1, y))
        &&& pending(g0, c, t, Seq::empty(), (x, y + 1))
        &&& pending(g0, c, t, Seq::empty(), (x, y - 1))
    } by {
        assert(at(b, x, y) == at(a, x, y) || (at(a, x, y) == t && at(b, x, y) != t));
        assert(at(c, x, y) == at(b, x, y) || (at(b, x, y) == t && at(c, x, y) != t));
        if at(b, x, y) != t {
            assert(pending(g0, b, t, Seq::empty(), (x + 1, y)));
            assert(pending(g0, b, t, Seq::empty(), (x - 1, y)));
            assert(pending(g0, b, t, Seq::empty(), (x, y + 1)));
            assert(pending(g0, b, t, Seq::empty(), (x, y - 1)));
            assert(in_grid((x + 1, y)) ==> at(c, x + 1, y) == at(b, x + 1, y) || at(c, x + 1, y) != t);
            assert(in_grid((x - 1, y)) ==> at(c, x - 1, y) == at(b, x - 1, y) || at(c, x - 1, y) != t);
            assert(in_grid((x, y + 1)) ==> at(c, x, y + 1) == at(b, x, y + 1) || at(c, x, y + 1) != t);
            assert(in_grid((x, y - 1)) ==> at(c, x, y - 1) == at(b, x, y - 1) || at(c, x, y - 1) != t);
        }
    }
}

impl World {
    /// Recursive fill: sets to `replacement` every floor cell that a walk over
    /// cells of code `target` leads to from (`x0`, `y0`); a start off the grid
    /// changes nothing.
    pub fn recur_flood_fill(&mut self, x0: isize, y0: isize, target: u8, replacement: u8)
        requires
            target != replacement,
        ensures
            flooded(old(self).floor, final(self).floor, (x0 as int, y0 as int), target, replacement),
            final(self).game == old(self).game,
    {
        let ghost g0 = self.floor;
        let ghost seed = (x0 as int, y0 as int);
        if !(0 <= x0 && x0 <= IW && 0 <= y0 && y0 <= IH) {
            proof {
                assert forall|x: int, y: int| in_grid((x, y)) implies #[trigger] at(self.floor, x, y)
                    == if reach(g0, target, seed, (x, y)) {
                    replacement
                } else {
                    at(g0, x, y)
                } by {
                    if reach(g0, target, seed, (x, y)) {
                        crate::flood::lemma_reach_ends(g0, target, seed, (x, y));
                    }
                }
            }
            return;
        }
        proof {
            if at(g0, x0 as int, y0 as int) == target {
                lemma_reach_seed(g0, target, seed);
            }
        }
        self.recur_fill(x0, y0, target, replacement, Ghost(g0), Ghost(seed));
        proof {
            assert forall|x: int, y: int|
                in_grid((x, y)) && at(g0, x, y) == target && #[trigger] at(self.floor, x, y)
                    != target implies {
                &&& pending(g0, self.floor, target, Seq::empty(), (x + 1, y))
                &&& pending(g0, self.floor, target, Seq::empty(), (x - 1, y))
                &&& pending(g0, self.floor, target, Seq::empty(), (x, y + 1))
                &&& pending(g0, self.floor, target, Seq::empty(), (x, y - 1))
            } by {}
            lemma_flooded(g0, self.floor, seed, target, replacement);
        }
    }

    /// The recursive fill's step at (`x0`, `y0`), within a fill of `g0` from `seed`.
    fn recur_fill(
        &mut self,
        x0: isize,
        y0: isize,
        t: u8,
        r: u8,
        Ghost(g0): Ghost<Grid>,
        Ghost(seed): Ghost<(int, int)>,
    )
        requires
            t != r,
            sound(g0, old(self).floor, seed, t, r),
            in_grid((x0 as int, y0 as int)) && at(g0, x0 as int, y0 as int) == t ==> reach(
                g0,
                t,
                seed,
                (x0 as int, y0 as int),
            ),
        ensures
            sound(g0, final(self).floor, seed, t, r),
            only_cleared(old(self).floor, final(self).floor, t),
            closed_new(g0, old(self).floor, final(self).floor, t),
            in_grid((x0 as int, y0 as int)) && at(old(self).floor, x0 as int, y0 as int) == t ==> at(
                final(self).floor,
                x0 as int,
                y0 as int,
            ) != t,
            final(self).game == old(self).game,
        decreases count_t(old(self).floor, t),
    {
        let ghost c0 = self.floor;
        if x0 < 0 || y0 < 0 {
            proof { lemma_cleared_chain(c0, c0, c0, t); }
            return;
        }
        if !(x0 <= IW && y0 <= IH && self.floor[x0 as usize][y0 as usize] == t) {
            proof { lemma_cleared_chain(c0, c0, c0, t); }
            return;
        }
        let x = x0 as usize;
        let y = y0 as usize;
        let ghost from = (x0 as int, y0 as int);
        let painted = paint_if_target(&mut self.floor, x, y, t, r);
        let ghost c1 = self.floor;
        proof {
            assert(at(c0, x as int, y as int) == at(g0, x as int, y as int) || at(c0, x as int, y as int) == r);
            assert(reach(g0, t, seed, from));
            lemma_count_cleared(c0, c1, t, x as int, y as int);
            assert forall|x2: int, y2: int| in_grid((x2, y2)) implies #[trigger] at(c1, x2, y2) == at(g0, x2, y2) || (at(
                g0,
                x2,
                y2,
            ) == t && at(c1, x2, y2) == r && reach(g0, t, seed, (x2, y2))) by {
                assert(at(c0, x2, y2) == at(g0, x2, y2) || (at(g0, x2, y2) == t && at(c0, x2, y2) == r && reach(g0, t, seed, (x2, y2))));
            }
            reach_neighbour(g0, t, seed, from, (x0 + 1) as int, y0 as int);
        }
        self.recur_fill(x0 + 1, y0, t, r, Ghost(g0), Ghost(seed));
        let ghost c2 = self.floor;
        proof {
            lemma_count_cleared(c1, c2, t, 0, 0);
            reach_neighbour(g0, t, seed, from, (x0 - 1) as int, y0 as int);
        }
        self.recur_fill(x0 - 1, y0, t, r, Ghost(g0), Ghost(seed));
        let ghost c3 = self.floor;
        proof {
            lemma_cleared_chain(c1, c2, c3, t);
            lemma_count_cleared(c1, c3, t, 0, 0);
            reach_neighbour(g0, t, seed, from, x0 as int, (y0 + 1) as int);
        }
        self.recur_fill(x0, y0 + 1, t, r, Ghost(g0), Ghost(seed));
        let ghost c4 = self.floor;
        proof {
            lemma_cleared_chain(c1, c3, c4, t);
            lemma_count_cleared(c1, c4, t, 0, 0);
            reach_neighbour(g0, t, seed, from, x0 as int, (y0 - 1) as int);
        }
        self.recur_fill(x0, y0 - 1, t, r, Ghost(g0), Ghost(seed));
        let ghost c5 = self.floor;
        proof {
            lemma_cleared_chain(c1, c4, c5, t);
            lemma_cleared_chain(c0, c1, c5, t);
            lemma_closed_new_chain(g0, c1, c2, c3, t);
            lemma_closed_new_chain(g0, c1, c3, c4, t);
            lemma_closed_new_chain(g0, c1, c4, c5, t);
            lemma_cleared_chain(c2, c3, c4, t);
            lemma_cleared_chain(c2, c4, c5, t);
            lemma_cleared_chain(c3, c4, c5, t);
            assert forall|x2: int, y2: int|
                in_grid((x2, y2)) && at(c0, x2, y2) == t && #[trigger] at(c5, x2, y2) != t implies {
                &&& pending(g0, c5, t, Seq::empty(), (x2 + 1, y2))
                &&& pending(g0, c5, t, Seq::empty(), (x2 - 1, y2))
                &&& pending(g0, c5, t, Seq::empty(), (x2, y2 + 1))
                &&& pending(g0, c5, t, Seq::empty(), (x2, y2 - 1))
            } by {
                if x2 == x && y2 == y {
                    assert(in_grid((x2 + 1, y2)) ==> at(c5, x2 + 1, y2) == at(c2, x2 + 1, y2) || at(c5, x2 + 1, y2) != t);
                    assert(in_grid((x2 - 1, y2)) ==> at(c5, x2 - 1, y2) == at(c3, x2 - 1, y2) || at(c5, x2 - 1, y2) != t);
                    assert(in_grid((x2, y2 + 1)) ==> at(c5, x2, y2 + 1) == at(c4, x2, y2 + 1) || at(c5, x2, y2 + 1) != t);
                    assert(in_grid((x2 + 1, y2)) ==> at(c2, x2 + 1, y2) == at(c1, x2 + 1, y2) || at(c2, x2 + 1, y2) != t);
                    assert(in_grid((x2 - 1, y2)) ==> at(c3, x2 - 1, y2) == at(c1, x2 - 1, y2) || at(c3, x2 - 1, y2) != t);
                    assert(in_grid((x2, y2 + 1)) ==> at(c4, x2, y2 + 1) == at(c1, x2, y2 + 1) || at(c4, x2, y2 + 1) != t);
                    assert(in_grid((x2, y2 - 1)) ==> at(c5, x2, y2 - 1) == at(c1, x2, y2 - 1) || at(c5, x2, y2 - 1) != t);
                    assert(in_grid((x2 + 1, y2)) ==> at(c1, x2 + 1, y2) == at(g0, x2 + 1, y2) || at(c1, x2 + 1, y2) == r);
                    assert(in_grid((x2 - 1, y2)) ==> at(c1, x2 - 1, y2) == at(g0, x2 - 1, y2) || at(c1, x2 - 1, y2) == r);
                    assert(in_grid((x2, y2 + 1)) ==> at(c1, x2, y2 + 1) == at(g0, x2, y2 + 1) || at(c1, x2, y2 + 1) == r);
                    assert(in_grid((x2, y2 - 1)) ==> at(c1, x2, y2 - 1) == at(g0, x2, y2 - 1) || at(c1, x2, y2 - 1) == r);
                } else {
                    assert(at(c1, x2, y2) == at(c0, x2, y2));
                }
            }
        }
    }
}

/// A neighbour of code `t` of a reached cell is reached.
proof fn reach_neighbour(g0: Grid, t: u8, seed: (int, int), from: (int, int), x: int, y: int)
    requires
        reach(g0, t, seed, from),
        crate::flood::adjacent(from, (x, y)),
    ensures
        in_grid((x, y)) && at(g0, x, y) == t ==> reach(g0, t, seed, (x, y)),
{
    if in_grid((x, y)) && at(g0, x, y) == t {
        lemma_reach_step(g0, t, seed, from, (x, y));
    }
}

/// What the corner fill keeps true while `st` waits: the fill is sound, the
/// stack holds the corner or done cells, every done cell off the stack has
/// its neighbours done, and the corner's neighbours are done unless the
/// corner still waits.
pub open spec fn corner_inv(g0: Grid, cur: Grid, t: u8, r: u8, st: Seq<(usize, usize)>) -> bool {
    &&& t != r
    &&& crate::flood::corner_sound(g0, cur, t, r)
    &&& forall|i: int|
        0 <= i < st.len() ==> {
            let e = #[trigger] st[i];
            e == (0usize, 0usize) || (e.0 < PLAYFIELD_W && e.1 < PLAYFIELD_H && at(g0, e.0 as int, e.1 as int) == t
                && at(cur, e.0 as int, e.1 as int) != t)
        }
    &&& forall|x: int, y: int|
        in_grid((x, y)) && at(g0, x, y) == t && #[trigger] at(cur, x, y) != t && !st.contains(
            (x as usize, y as usize),
        ) ==> {
            &&& pending(g0, cur, t, Seq::empty(), (x + 1, y))
            &&& pending(g0, cur, t, Seq::empty(), (x - 1, y))
            &&& pending(g0, cur, t, Seq::empty(), (x, y + 1))
            &&& pending(g0, cur, t, Seq::empty(), (x, y - 1))
        }
    &&& st.contains((0usize, 0usize)) || (pending(g0, cur, t, Seq::empty(), (1, 0)) && pending(
        g0,
        cur,
        t,
        Seq::empty(),
        (0, 1),
    ))
}

/// A corner fill's stack entry: the corner, or a done cell.
pub open spec fn corner_entry(g0: Grid, cur: Grid, t: u8, e: (usize, usize)) -> bool {
    e == (0usize, 0usize) || (e.0 < PLAYFIELD_W && e.1 < PLAYFIELD_H && at(g0, e.0 as int, e.1 as int) == t
        && at(cur, e.0 as int, e.1 as int) != t)
}

/// One step of the corner fill keeps its bookkeeping.
proof fn lemma_corner_step(
    g0: Grid,
    cur: Grid,
    fin: Grid,
    t: u8,
    r: u8,
    q: Seq<(usize, usize)>,
    rest: Seq<(usize, usize)>,
    st: Seq<(usize, usize)>,
    p: (usize, usize),
)
    requires
        corner_inv(g0, cur, t, r, q),
        q.contains(p),
        forall|n: (usize, usize)| q.contains(n) ==> n == p || #[trigger] rest.contains(n),
        kept(rest, st),
        only_cleared(cur, fin, t),
        crate::flood::corner_sound(g0, fin, t, r),
        forall|i: int| 0 <= i < st.len() ==> corner_entry(g0, fin, t, #[trigger] st[i]),
        forall|x: int, y: int|
            in_grid((x, y)) && at(cur, x, y) == t && #[trigger] at(fin, x, y) != t ==> st.contains(
                (x as usize, y as usize),
            ),
        pending(g0, fin, t, Seq::empty(), (p.0 + 1, p.1 as int)),
        pending(g0, fin, t, Seq::empty(), (p.0 - 1, p.1 as int)),
        pending(g0, fin, t, Seq::empty(), (p.0 as int, p.1 + 1)),
        pending(g0, fin, t, Seq::empty(), (p.0 as int, p.1 - 1)),
    ensures
        corner_inv(g0, fin, t, r, st),
{
    assert forall|x: int, y: int|
        in_grid((x, y)) && at(g0, x, y) == t && #[trigger] at(fin, x, y) != t && !st.contains(
            (x as usize, y as usize),
        ) implies {
        &&& pending(g0, fin, t, Seq::empty(), (x + 1, y))
        &&& pending(g0, fin, t, Seq::empty(), (x - 1, y))
        &&& pending(g0, fin, t, Seq::empty(), (x, y + 1))
        &&& pending(g0, fin, t, Seq::empty(), (x, y - 1))
    } by {
        assert(at(fin, x, y) == at(cur, x, y) || (at(cur, x, y) == t && at(fin, x, y) != t));
        if (x as usize, y as usize) != p {
            assert(!rest.contains((x as usize, y as usize)));
            assert(!q.contains((x as usize, y as usize)));
            assert(pending(g0, cur, t, Seq::empty(), (x + 1, y)));
            assert(pending(g0, cur, t, Seq::empty(), (x - 1, y)));
            assert(pending(g0, cur, t, Seq::empty(), (x, y + 1)));
            assert(pending(g0, cur, t, Seq::empty(), (x, y - 1)));
            assert(in_grid((x + 1, y)) ==> at(fin, x + 1, y) == at(cur, x + 1, y) || at(fin, x + 1, y) != t);
            assert(in_grid((x - 1, y)) ==> at(fin, x - 1, y) == at(cur, x - 1, y) || at(fin, x - 1, y) != t);
            assert(in_grid((x, y + 1)) ==> at(fin, x, y + 1) == at(cur, x, y + 1) || at(fin, x, y + 1) != t);
            assert(in_grid((x, y - 1)) ==> at(fin, x, y - 1) == at(cur, x, y - 1) || at(fin, x, y - 1) != t);
        }
    }
    if !st.contains((0usize, 0usize)) {
        if q.contains((0usize, 0usize)) {
            assert(p == (0usize, 0usize));
        } else {
            assert(in_grid((1, 0)) ==> at(fin, 1, 0) == at(cur, 1, 0) || at(fin, 1, 0) != t);
            assert(in_grid((0, 1)) ==> at(fin, 0, 1) == at(cur, 0, 1) || at(fin, 0, 1) != t);
        }
    }
}

impl World {
    /// Paints a neighbour found by the corner fill and puts it on the stack.
    fn corner_paint(
        &mut self,
        stack: &mut Vec<(usize, usize)>,
        nx: usize,
        ny: usize,
        t: u8,
        r: u8,
        Ghost(g0): Ghost<Grid>,
        Ghost(from): Ghost<(int, int)>,
    )
        requires
            nx < PLAYFIELD_W,
            ny < PLAYFIELD_H,
            t != r,
            at(old(self).floor, nx as int, ny as int) == t,
            crate::flood::adjacent(from, (nx as int, ny as int)),
            from == (0int, 0int) || crate::flood::corner_reach(g0, t, from),
            crate::flood::corner_sound(g0, old(self).floor, t, r),
            forall|i: int| 0 <= i < old(stack)@.len() ==> corner_entry(g0, old(self).floor, t, #[trigger] old(stack)@[i]),
        ensures
            final(self).game == old(self).game,
            only_cleared(old(self).floor, final(self).floor, t),
            at(final(self).floor, nx as int, ny as int) != t,
            forall|x: int, y: int|
                in_grid((x, y)) && at(old(self).floor, x, y) == t && #[trigger] at(final(self).floor, x, y)
                    != t ==> x == nx && y == ny,
            crate::flood::corner_sound(g0, final(self).floor, t, r),
            final(stack)@ == old(stack)@.push((nx, ny)),
            kept(old(stack)@, final(stack)@),
            final(stack)@.contains((nx, ny)),
            forall|i: int| 0 <= i < final(stack)@.len() ==> corner_entry(g0, final(self).floor, t, #[trigger] final(stack)@[i]),
    {
        let ghost cur = self.floor;
        let ghost n = (nx as int, ny as int);
        proof {
            assert(at(cur, n.0, n.1) == at(g0, n.0, n.1) || at(cur, n.0, n.1) == r);
            if from == (0int, 0int) {
                lemma_reach_seed(g0, t, n);
            } else if reach(g0, t, (1, 0), from) {
                lemma_reach_step(g0, t, (1, 0), from, n);
            } else {
                lemma_reach_step(g0, t, (0, 1), from, n);
            }
        }
        let painted = paint_if_target(&mut self.floor, nx, ny, t, r);
        proof {
            lemma_push_contains(stack@, (nx, ny));
            let fin = self.floor;
            assert forall|x: int, y: int| in_grid((x, y)) implies #[trigger] at(fin, x, y) == at(g0, x, y) || (at(
                g0,
                x,
                y,
            ) == t && at(fin, x, y) == r && crate::flood::corner_reach(g0, t, (x, y))) by {
                assert(at(cur, x, y) == at(g0, x, y) || (at(g0, x, y) == t && at(cur, x, y) == r
                    && crate::flood::corner_reach(g0, t, (x, y))));
            }
            assert forall|x: int, y: int| in_grid((x, y)) implies #[trigger] at(fin, x, y) == at(cur, x, y) || (at(
                cur,
                x,
                y,
            ) == t && at(fin, x, y) != t) by {}
            assert forall|i: int| 0 <= i < stack@.len() implies corner_entry(g0, fin, t, #[trigger] stack@[i]) by {
                let e = stack@[i];
                if e != (0usize, 0usize) {
                    assert(at(fin, e.0 as int, e.1 as int) == at(cur, e.0 as int, e.1 as int));
                }
            }
        }
        stack.push((nx, ny));
        proof {
            let st = stack@;
            assert forall|i: int| 0 <= i < st.len() implies corner_entry(g0, self.floor, t, #[trigger] st[i]) by {
                if i < st.len() - 1 {
                    assert(st[i] == old(stack)@[i]);
                }
            }
        }
    }

    /// Fill from the corner (0, 0): sets to `replacement` every floor cell
    /// that a walk over cells of code `target` leads to from a neighbour of
    /// the corner.
    pub fn flood_from_corner(&mut self, target: u8, replacement: u8)
        requires
            target != replacement,
        ensures
            crate::flood::corner_flooded(old(self).floor, final(self).floor, target, replacement),
            final(self).game == old(self).game,
    {
        let ghost g0 = self.floor;
        let mut stack: Vec<(usize, usize)> = Vec::new();
        stack.push((0, 0));
        proof {
            lemma_push_contains(Seq::empty(), (0, 0));
            assert(stack@ == Seq::<(usize, usize)>::empty().push((0usize, 0usize)));
        }
        while stack.len() > 0
            invariant
                self.game == old(self).game,
                g0 == old(self).floor,
                corner_inv(g0, self.floor, target, replacement, stack@),
            decreases count_t(self.floor, target), stack@.len(),
        {
            let ghost q = stack@;
            let ghost cur = self.floor;
            let (x, y) = match stack.pop() {
                Some(c) => c,
                None => (0, 0),
            };
            proof {
                assert(q[q.len() - 1] == (x, y));
                assert(stack@ == q.subrange(0, q.len() - 1));
                lemma_pop_back_contains(q);
            }
            let right = x + 1 < PLAYFIELD_W && self.floor[x + 1][y] == target;
            let left = x > 0 && self.floor[x - 1][y] == target;
            let down = y + 1 < PLAYFIELD_H && self.floor[x][y + 1] == target;
            let up = y > 0 && self.floor[x][y - 1] == target;
            let ghost from = (x as int, y as int);
            proof {
                if from != (0int, 0int) {
                    assert(corner_entry(g0, cur, target, q[q.len() - 1]));
                    assert(crate::flood::corner_reach(g0, target, from));
                }
            }
            let ghost rest = stack@;
            proof {
                lemma_cleared_chain(cur, cur, cur, target);
                assert forall|i: int| 0 <= i < rest.len() implies corner_entry(g0, cur, target, #[trigger] rest[i]) by {
                    assert(rest[i] == q[i]);
                }
            }
            if right {
                self.corner_paint(&mut stack, x + 1, y, target, replacement, Ghost(g0), Ghost(from));
            }
            let ghost s1 = stack@;
            let ghost f1 = self.floor;
            if left {
                self.corner_paint(&mut stack, x - 1, y, target, replacement, Ghost(g0), Ghost(from));
            }
            let ghost s2 = stack@;
            let ghost f2 = self.floor;
            proof {
                lemma_cleared_chain(cur, f1, f2, target);
            }
            if down {
                self.corner_paint(&mut stack, x, y + 1, target, replacement, Ghost(g0), Ghost(from));
            }
            let ghost s3 = stack@;
            let ghost f3 = self.floor;
            proof {
                lemma_cleared_chain(cur, f2, f3, target);
            }
            if up {
                self.corner_paint(&mut stack, x, y - 1, target, replacement, Ghost(g0), Ghost(from));
            }
            proof {
                lemma_cleared_chain(cur, f3, self.floor, target);
                assert(kept(rest, s1) && kept(s1, s2) && kept(s2, s3) && kept(s3, stack@));
                assert(kept(rest, stack@));
                lemma_count_cleared(cur, self.floor, target, 0, 0);
                if right {
                    lemma_count_cleared(cur, self.floor, target, x + 1, y as int);
                }
                if left {
                    lemma_count_cleared(cur, self.floor, target, x - 1, y as int);
                }
                if down {
                    lemma_count_cleared(cur, self.floor, target, x as int, y + 1);
                }
                if up {
                    lemma_count_cleared(cur, self.floor, target, x as int, y - 1);
                }
                lemma_corner_step(g0, cur, self.floor, target, replacement, q, rest, stack@, (x, y));
            }
        }
        proof {
            assert(closed(g0, self.floor, target, Seq::empty()));
            crate::flood::lemma_corner_flooded(g0, self.floor, target, replacement);
        }
    }
}

} // verus!
