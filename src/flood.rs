use vstd::prelude::*;

use crate::constants::{PLAYFIELD_H, PLAYFIELD_W};
use crate::grid::{Grid, at};

verus! {

/// The cell lies on the grid.
pub open spec fn in_grid(c: (int, int)) -> bool {
    0 <= c.0 < PLAYFIELD_W && 0 <= c.1 < PLAYFIELD_H
}

/// The two cells share a side.
pub open spec fn adjacent(a: (int, int), b: (int, int)) -> bool {
    ||| a.0 == b.0 && (a.1 == b.1 + 1 || b.1 == a.1 + 1)
    ||| a.1 == b.1 && (a.0 == b.0 + 1 || b.0 == a.0 + 1)
}

/// A walk over cells that share a side, all on the grid and of code `t`.
pub open spec fn is_path(g: Grid, t: u8, p: Seq<(int, int)>) -> bool {
    &&& p.len() >= 1
    &&& forall|i: int|
        0 <= i < p.len() ==> in_grid(#[trigger] p[i]) && at(g, p[i].0, p[i].1) == t
    &&& forall|i: int| 0 <= i < p.len() - 1 ==> adjacent(#[trigger] p[i], p[i + 1])
}

/// A walk over cells of code `t` leads from `seed` to `c`.
pub open spec fn reach(g: Grid, t: u8, seed: (int, int), c: (int, int)) -> bool {
    exists|p: Seq<(int, int)>| is_path(g, t, p) && p[0] == seed && p.last() == c
}

/// `new` is `old` with every cell that a walk over cells of code `t` leads
/// to from `seed` set to `r`.
pub open spec fn flooded(old: Grid, new: Grid, seed: (int, int), t: u8, r: u8) -> bool {
    forall|x: int, y: int|
        in_grid((x, y)) ==> #[trigger] at(new, x, y) == if reach(old, t, seed, (x, y)) {
            r
        } else {
            at(old, x, y)
        }
}

/// Every cell of `cur` is as in `g0`, or is a cell of code `t` that `seed`
/// reaches in `g0`, now set to `r`.
pub open spec fn sound(g0: Grid, cur: Grid, seed: (int, int), t: u8, r: u8) -> bool {
    forall|x: int, y: int|
        in_grid((x, y)) ==> #[trigger] at(cur, x, y) == at(g0, x, y) || (at(g0, x, y) == t && at(
            cur,
            x,
            y,
        ) == r && reach(g0, t, seed, (x, y)))
}

/// Cells only ever change from code `t` to another code.
pub open spec fn only_cleared(cur: Grid, new: Grid, t: u8) -> bool {
    forall|x: int, y: int|
        in_grid((x, y)) ==> #[trigger] at(new, x, y) == at(cur, x, y) || (at(cur, x, y) == t && at(
            new,
            x,
            y,
        ) != t)
}

/// The cell is off the grid, was not of code `t`, is done, or waits in `q`.
pub open spec fn pending(g0: Grid, cur: Grid, t: u8, q: Seq<(usize, usize)>, c: (int, int)) -> bool {
    ||| !in_grid(c)
    ||| at(g0, c.0, c.1) != t
    ||| at(cur, c.0, c.1) != t
    ||| q.contains((c.0 as usize, c.1 as usize))
}

/// Every neighbour of a done cell is itself done or waiting in `q`.
pub open spec fn closed(g0: Grid, cur: Grid, t: u8, q: Seq<(usize, usize)>) -> bool {
    forall|x: int, y: int|
        in_grid((x, y)) && at(g0, x, y) == t && #[trigger] at(cur, x, y) != t ==> {
            &&& pending(g0, cur, t, q, (x + 1, y))
            &&& pending(g0, cur, t, q, (x - 1, y))
            &&& pending(g0, cur, t, q, (x, y + 1))
            &&& pending(g0, cur, t, q, (x, y - 1))
        }
}

/// Indices of the cells of code `t`, column by column.
pub open spec fn target_set(g: Grid, t: u8) -> Set<int> {
    Set::new(|i: int| 0 <= i < 240 && at(g, i / 24, i % 24) == t)
}

/// Number of cells of code `t`.
pub open spec fn count_t(g: Grid, t: u8) -> nat {
    target_set(g, t).len()
}

/// A seed of code `t` reaches itself.
pub proof fn lemma_reach_seed(g: Grid, t: u8, seed: (int, int))
    requires
        in_grid(seed),
        at(g, seed.0, seed.1) == t,
    ensures
        reach(g, t, seed, seed),
{
    let p = seq![seed];
    assert(is_path(g, t, p) && p[0] == seed && p.last() == seed);
}

/// A neighbour of code `t` of a reached cell is reached.
pub proof fn lemma_reach_step(g: Grid, t: u8, seed: (int, int), a: (int, int), b: (int, int))
    requires
        reach(g, t, seed, a),
        in_grid(b),
        at(g, b.0, b.1) == t,
        adjacent(a, b),
    ensures
        reach(g, t, seed, b),
{
    let p = choose|p: Seq<(int, int)>| is_path(g, t, p) && p[0] == seed && p.last() == a;
    let p2 = p.push(b);
    assert forall|i: int| 0 <= i < p2.len() - 1 implies adjacent(#[trigger] p2[i], p2[i + 1]) by {
        if i < p.len() - 1 {
            assert(p2[i] == p[i] && p2[i + 1] == p[i + 1]);
        }
    }
    assert forall|i: int| 0 <= i < p2.len() implies in_grid(#[trigger] p2[i]) && at(
        g,
        p2[i].0,
        p2[i].1,
    ) == t by {
        if i < p.len() {
            assert(p2[i] == p[i]);
        }
    }
    assert(is_path(g, t, p2) && p2[0] == seed && p2.last() == b);
}

/// Both ends of a walk lie on the grid and are of code `t`.
pub proof fn lemma_reach_ends(g: Grid, t: u8, seed: (int, int), c: (int, int))
    requires
        reach(g, t, seed, c),
    ensures
        in_grid(seed),
        at(g, seed.0, seed.1) == t,
        in_grid(c),
        at(g, c.0, c.1) == t,
{
    let p = choose|p: Seq<(int, int)>| is_path(g, t, p) && p[0] == seed && p.last() == c;
    assert(p[p.len() - 1] == c);
}

/// Along a walk from a done cell, in a fill closed with nothing left to do,
/// every cell is done.
pub proof fn lemma_path_done(g0: Grid, cur: Grid, t: u8, p: Seq<(int, int)>, i: int)
    requires
        is_path(g0, t, p),
        at(cur, p[0].0, p[0].1) != t,
        closed(g0, cur, t, Seq::empty()),
        0 <= i < p.len(),
    ensures
        at(cur, p[i].0, p[i].1) != t,
    decreases i,
{
    if i > 0 {
        lemma_path_done(g0, cur, t, p, i - 1);
        let a = p[i - 1];
        assert(adjacent(p[i - 1], p[i]));
        assert(in_grid(p[i - 1]) && at(g0, a.0, a.1) == t);
        assert(in_grid(p[i]) && at(g0, p[i].0, p[i].1) == t);
        assert(!Seq::<(usize, usize)>::empty().contains((p[i].0 as usize, p[i].1 as usize)));
    }
}

/// A fill that is sound, closed with nothing left to do, and done at its
/// seed has flooded everything that the seed reaches.
pub proof fn lemma_flooded(g0: Grid, cur: Grid, seed: (int, int), t: u8, r: u8)
    requires
        t != r,
        sound(g0, cur, seed, t, r),
        closed(g0, cur, t, Seq::empty()),
        in_grid(seed) && at(g0, seed.0, seed.1) == t ==> at(cur, seed.0, seed.1) != t,
    ensures
        flooded(g0, cur, seed, t, r),
{
    assert forall|x: int, y: int| in_grid((x, y)) implies #[trigger] at(cur, x, y) == if reach(
        g0,
        t,
        seed,
        (x, y),
    ) {
        r
    } else {
        at(g0, x, y)
    } by {
        if reach(g0, t, seed, (x, y)) {
            lemma_reach_ends(g0, t, seed, (x, y));
            let p = choose|p: Seq<(int, int)>|
                is_path(g0, t, p) && p[0] == seed && p.last() == (x, y);
            lemma_path_done(g0, cur, t, p, p.len() - 1);
        }
    }
}

/// Clearing cells of code `t` never adds to their number, and clearing one
/// takes from it.
pub proof fn lemma_count_cleared(cur: Grid, new: Grid, t: u8, x: int, y: int)
    requires
        only_cleared(cur, new, t),
    ensures
        count_t(new, t) <= count_t(cur, t),
        in_grid((x, y)) && at(cur, x, y) == t && at(new, x, y) != t ==> count_t(new, t) < count_t(
            cur,
            t,
        ),
{
    let s_new = target_set(new, t);
    let s_cur = target_set(cur, t);
    vstd::set_lib::lemma_int_range(0, 240);
    assert(s_cur.subset_of(vstd::set_lib::set_int_range(0, 240)));
    vstd::set_lib::lemma_len_subset(s_cur, vstd::set_lib::set_int_range(0, 240));
    assert forall|i: int| s_new.contains(i) implies s_cur.contains(i) by {
        assert(in_grid((i / 24, i % 24)));
    }
    vstd::set_lib::lemma_len_subset(s_new, s_cur);
    if in_grid((x, y)) && at(cur, x, y) == t && at(new, x, y) != t {
        let e = x * 24 + y;
        assert(e / 24 == x && e % 24 == y);
        assert(s_cur.contains(e));
        assert(!s_new.contains(e));
        assert(s_new.subset_of(s_cur.remove(e)));
        vstd::set_lib::lemma_len_subset(s_new, s_cur.remove(e));
    }
}

/// A pushed entry is held, and so is every earlier one.
pub proof fn lemma_push_contains(q: Seq<(usize, usize)>, e: (usize, usize))
    ensures
        q.push(e).contains(e),
        forall|n: (usize, usize)| q.contains(n) ==> #[trigger] q.push(e).contains(n),
{
    assert(q.push(e)[q.len() as int] == e);
    assert forall|n: (usize, usize)| q.contains(n) implies #[trigger] q.push(e).contains(n) by {
        let i = choose|i: int| 0 <= i < q.len() && q[i] == n;
        assert(q.push(e)[i] == n);
    }
}

/// Taking the front entry keeps every other entry.
pub proof fn lemma_pop_front_contains(q: Seq<(usize, usize)>)
    requires
        q.len() > 0,
    ensures
        forall|n: (usize, usize)|
            q.contains(n) && n != q[0] ==> #[trigger] q.subrange(1, q.len() as int).contains(n),
{
    assert forall|n: (usize, usize)| q.contains(n) && n != q[0] implies #[trigger] q.subrange(
        1,
        q.len() as int,
    ).contains(n) by {
        let i = choose|i: int| 0 <= i < q.len() && q[i] == n;
        assert(q.subrange(1, q.len() as int)[i - 1] == n);
    }
}

/// Taking the back entry keeps every other entry.
pub proof fn lemma_pop_back_contains(q: Seq<(usize, usize)>)
    requires
        q.len() > 0,
    ensures
        forall|n: (usize, usize)|
            q.contains(n) && n != q.last() ==> #[trigger] q.subrange(0, q.len() - 1).contains(n),
{
    assert forall|n: (usize, usize)| q.contains(n) && n != q.last() implies #[trigger] q.subrange(
        0,
        q.len() - 1,
    ).contains(n) by {
        let i = choose|i: int| 0 <= i < q.len() && q[i] == n;
        assert(q.subrange(0, q.len() - 1)[i] == n);
    }
}

/// One step of a worklist fill keeps its bookkeeping: the cell `e` was taken
/// from `q`, leaving `rest`; it was done, or is done now and its neighbours
/// were added to `q2`.
pub proof fn lemma_fill_step(
    g0: Grid,
    cur: Grid,
    cur2: Grid,
    t: u8,
    q: Seq<(usize, usize)>,
    rest: Seq<(usize, usize)>,
    q2: Seq<(usize, usize)>,
    e: (int, int),
)
    requires
        closed(g0, cur, t, q),
        in_grid(e),
        forall|n: (usize, usize)| q.contains(n) ==> n == (e.0 as usize, e.1 as usize) || #[trigger] rest.contains(n),
        forall|n: (usize, usize)| rest.contains(n) ==> #[trigger] q2.contains(n),
        forall|x: int, y: int|
            in_grid((x, y)) ==> #[trigger] at(cur2, x, y) == at(cur, x, y) || ((x, y) == e && at(
                cur2,
                x,
                y,
            ) != t),
        at(g0, e.0, e.1) == t ==> at(cur2, e.0, e.1) != t,
        at(cur, e.0, e.1) == t && at(cur2, e.0, e.1) != t ==> {
            &&& in_grid((e.0 + 1, e.1)) ==> q2.contains(((e.0 + 1) as usize, e.1 as usize))
            &&& in_grid((e.0 - 1, e.1)) ==> q2.contains(((e.0 - 1) as usize, e.1 as usize))
            &&& in_grid((e.0, e.1 + 1)) ==> q2.contains((e.0 as usize, (e.1 + 1) as usize))
            &&& in_grid((e.0, e.1 - 1)) ==> q2.contains((e.0 as usize, (e.1 - 1) as usize))
        },
    ensures
        closed(g0, cur2, t, q2),
        forall|c: (int, int)| pending(g0, cur, t, q, c) ==> #[trigger] pending(g0, cur2, t, q2, c),
{
    assert forall|c: (int, int)| pending(g0, cur, t, q, c) implies #[trigger] pending(
        g0,
        cur2,
        t,
        q2,
        c,
    ) by {
        if in_grid(c) && at(g0, c.0, c.1) == t && at(cur, c.0, c.1) == t {
            assert(at(cur2, c.0, c.1) == at(cur, c.0, c.1) || (c == e && at(cur2, c.0, c.1) != t));
            if c != e {
                let n = (c.0 as usize, c.1 as usize);
                assert(q.contains(n));
                assert(n != (e.0 as usize, e.1 as usize));
                assert(rest.contains(n));
            }
        }
    }
    assert forall|x: int, y: int|
        in_grid((x, y)) && at(g0, x, y) == t && #[trigger] at(cur2, x, y) != t implies {
        &&& pending(g0, cur2, t, q2, (x + 1, y))
        &&& pending(g0, cur2, t, q2, (x - 1, y))
        &&& pending(g0, cur2, t, q2, (x, y + 1))
        &&& pending(g0, cur2, t, q2, (x, y - 1))
    } by {
        if at(cur, x, y) != t {
            assert(pending(g0, cur, t, q, (x + 1, y)));
            assert(pending(g0, cur, t, q, (x - 1, y)));
            assert(pending(g0, cur, t, q, (x, y + 1)));
            assert(pending(g0, cur, t, q, (x, y - 1)));
        } else {
            assert((x, y) == e);
        }
    }
}

/// A walk over cells of code `t` leads to `c` from a neighbour of the corner (0, 0).
pub open spec fn corner_reach(g: Grid, t: u8, c: (int, int)) -> bool {
    reach(g, t, (1, 0), c) || reach(g, t, (0, 1), c)
}

/// `new` is `old` with every cell that a walk over cells of code `t` leads
/// to from a neighbour of the corner set to `r`.
pub open spec fn corner_flooded(old: Grid, new: Grid, t: u8, r: u8) -> bool {
    forall|x: int, y: int|
        in_grid((x, y)) ==> #[trigger] at(new, x, y) == if corner_reach(old, t, (x, y)) {
            r
        } else {
            at(old, x, y)
        }
}

/// Every cell of `cur` is as in `g0`, or is a cell of code `t` reached from
/// a neighbour of the corner, now set to `r`.
pub open spec fn corner_sound(g0: Grid, cur: Grid, t: u8, r: u8) -> bool {
    forall|x: int, y: int|
        in_grid((x, y)) ==> #[trigger] at(cur, x, y) == at(g0, x, y) || (at(g0, x, y) == t && at(
            cur,
            x,
            y,
        ) == r && corner_reach(g0, t, (x, y)))
}

/// A corner fill that is sound, closed, and done at both neighbours of the
/// corner has flooded everything that they reach.
pub proof fn lemma_corner_flooded(g0: Grid, cur: Grid, t: u8, r: u8)
    requires
        t != r,
        corner_sound(g0, cur, t, r),
        closed(g0, cur, t, Seq::empty()),
        pending(g0, cur, t, Seq::empty(), (1, 0)),
        pending(g0, cur, t, Seq::empty(), (0, 1)),
    ensures
        corner_flooded(g0, cur, t, r),
{
    assert forall|x: int, y: int| in_grid((x, y)) implies #[trigger] at(cur, x, y) == if corner_reach(
        g0,
        t,
        (x, y),
    ) {
        r
    } else {
        at(g0, x, y)
    } by {
        if reach(g0, t, (1, 0), (x, y)) {
            lemma_reach_ends(g0, t, (1, 0), (x, y));
            assert(!Seq::<(usize, usize)>::empty().contains((1usize, 0usize)));
            let p = choose|p: Seq<(int, int)>|
                is_path(g0, t, p) && p[0] == (1int, 0int) && p.last() == (x, y);
            lemma_path_done(g0, cur, t, p, p.len() - 1);
        } else if reach(g0, t, (0, 1), (x, y)) {
            lemma_reach_ends(g0, t, (0, 1), (x, y));
            assert(!Seq::<(usize, usize)>::empty().contains((0usize, 1usize)));
            let p = choose|p: Seq<(int, int)>|
                is_path(g0, t, p) && p[0] == (0int, 1int) && p.last() == (x, y);
            lemma_path_done(g0, cur, t, p, p.len() - 1);
        }
    }
}

} // verus!
