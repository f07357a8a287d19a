//! Routes across a grid: what they are, what they cost, and which of them
//! are shortest.

use vstd::prelude::*;
use crate::grid::{
    can_step, diagonal, in_bounds, passable, step_cost, weight, ORTHOGONAL_SCALE,
};
use crate::pos::{manhattan, Pos};

verus! {

/// A route is a sequence of cells, not empty, in which each cell after the
/// first is entered from the one before it by an allowed move.
pub open spec fn is_route(g: Seq<Seq<u32>>, r: Seq<(int, int)>) -> bool {
    &&& r.len() > 0
    &&& forall|i: int| 0 < i < r.len() ==> can_step(g, r[i - 1], #[trigger] r[i])
}

/// Sum of the costs of the moves along `r`.
pub open spec fn route_cost(g: Seq<Seq<u32>>, r: Seq<(int, int)>) -> int
    decreases r.len(),
{
    if r.len() <= 1 {
        0
    } else {
        route_cost(g, r.drop_last()) + step_cost(g, r[r.len() - 2], r.last())
    }
}

/// `r` is a route that starts at `a` and ends at `b`.
pub open spec fn connects(
    g: Seq<Seq<u32>>,
    r: Seq<(int, int)>,
    a: (int, int),
    b: (int, int),
) -> bool {
    is_route(g, r) && r.first() == a && r.last() == b
}

/// Some route leads from `a` to `b`.
pub open spec fn reachable(g: Seq<Seq<u32>>, a: (int, int), b: (int, int)) -> bool {
    exists|r: Seq<(int, int)>| connects(g, r, a, b)
}

/// `r` leads from `a` to `b`, and no route from `a` to `b` costs less.
pub open spec fn is_shortest(
    g: Seq<Seq<u32>>,
    r: Seq<(int, int)>,
    a: (int, int),
    b: (int, int),
) -> bool {
    &&& connects(g, r, a, b)
    &&& forall|o: Seq<(int, int)>| #[trigger]
        connects(g, o, a, b) ==> route_cost(g, r) <= route_cost(g, o)
}

/// A path of positions as a sequence of cells.
pub open spec fn track(path: Seq<Pos>) -> Seq<(int, int)> {
    Seq::new(path.len(), |i: int| path[i]@)
}

/// A path of coordinate pairs as a sequence of cells.
pub open spec fn coords(path: Seq<(usize, usize)>) -> Seq<(int, int)> {
    Seq::new(path.len(), |i: int| (path[i].0 as int, path[i].1 as int))
}

/// A route without its last cell is a route.
pub proof fn lemma_route_prefix(g: Seq<Seq<u32>>, r: Seq<(int, int)>)
    requires
        is_route(g, r),
        r.len() > 1,
    ensures
        is_route(g, r.drop_last()),
        r.drop_last().first() == r.first(),
        can_step(g, r.drop_last().last(), r.last()),
{
    let p = r.drop_last();
    assert forall|i: int| 0 < i < p.len() implies can_step(g, p[i - 1], #[trigger] p[i]) by {
        assert(can_step(g, r[i - 1], r[i]));
    }
    assert(can_step(g, r[r.len() - 2], r[r.len() - 1]));
}

/// Every allowed move costs at least one orthogonal step onto a cell of
/// weight one.
pub proof fn lemma_step_cost_positive(g: Seq<Seq<u32>>, a: (int, int), b: (int, int))
    requires
        can_step(g, a, b),
    ensures
        step_cost(g, a, b) >= ORTHOGONAL_SCALE,
{
}

/// A route costs at least one orthogonal step onto a cell of weight one for
/// each of its moves, and its ends are no further apart than two for each of
/// its moves.
pub proof fn lemma_route_bounds(g: Seq<Seq<u32>>, r: Seq<(int, int)>)
    requires
        is_route(g, r),
    ensures
        route_cost(g, r) >= ORTHOGONAL_SCALE * (r.len() - 1),
        manhattan(r.first(), r.last()) <= 2 * (r.len() - 1),
    decreases r.len(),
{
    if r.len() > 1 {
        lemma_route_prefix(g, r);
        lemma_route_bounds(g, r.drop_last());
        lemma_step_cost_positive(g, r[r.len() - 2], r.last());
    }
}

/// A route of a single cell costs nothing, and it is the only kind of route
/// that does.
pub proof fn lemma_free_route(g: Seq<Seq<u32>>, r: Seq<(int, int)>)
    requires
        is_route(g, r),
    ensures
        route_cost(g, r) == 0 <==> r.len() == 1,
{
    lemma_route_bounds(g, r);
}

/// Every cell is linked to itself by the route that holds it alone.
pub proof fn lemma_stay(g: Seq<Seq<u32>>, a: (int, int))
    ensures
        connects(g, seq![a], a, a),
        route_cost(g, seq![a]) == 0,
        reachable(g, a, a),
{
    assert(connects(g, seq![a], a, a));
}

/// The sequence enters no cell of weight zero and cuts no corner: every
/// cell after the first has a weight above zero, and where a move changes
/// both coordinates, so have the two cells that flank it.
pub open spec fn respects_blocks(g: Seq<Seq<u32>>, r: Seq<(int, int)>) -> bool {
    forall|i: int|
        0 < i < r.len() ==> {
            &&& weight(g, #[trigger] r[i]) > 0
            &&& diagonal(r[i - 1], r[i]) ==> weight(g, (r[i].0, r[i - 1].1)) > 0 && weight(
                g,
                (r[i - 1].0, r[i].1),
            ) > 0
        }
}

/// No route enters a cell that cannot be entered, and none cuts a corner.
pub proof fn lemma_route_respects_blocks(g: Seq<Seq<u32>>, r: Seq<(int, int)>)
    requires
        is_route(g, r),
    ensures
        respects_blocks(g, r),
{
    assert forall|i: int| 0 < i < r.len() implies {
        &&& weight(g, #[trigger] r[i]) > 0
        &&& diagonal(r[i - 1], r[i]) ==> weight(g, (r[i].0, r[i - 1].1)) > 0 && weight(
            g,
            (r[i - 1].0, r[i].1),
        ) > 0
    } by {
        assert(can_step(g, r[i - 1], r[i]));
    }
}

/// A route that starts inside the grid stays inside it.
pub proof fn lemma_route_in_bounds(g: Seq<Seq<u32>>, r: Seq<(int, int)>, i: int)
    requires
        is_route(g, r),
        in_bounds(g, r.first()),
        0 <= i < r.len(),
    ensures
        in_bounds(g, r[i]),
{
    if i > 0 {
        assert(can_step(g, r[i - 1], r[i]));
    }
}

/// A cell that cannot be entered is reached from nowhere but itself.
pub proof fn lemma_blocked_goal_unreachable(g: Seq<Seq<u32>>, start: (int, int), goal: (int, int))
    requires
        !passable(g, goal),
        start != goal,
    ensures
        !reachable(g, start, goal),
{
    assert forall|r: Seq<(int, int)>| !connects(g, r, start, goal) by {
        if connects(g, r, start, goal) {
            assert(can_step(g, r[r.len() - 2], r[r.len() - 1]));
        }
    }
}

/// A cell whose four orthogonal neighbours cannot be entered is reached only
/// from itself and from those neighbours: a ring of blocked cells cuts it
/// off from the rest of the grid.
pub proof fn lemma_ringed_goal_unreachable(g: Seq<Seq<u32>>, start: (int, int), goal: (int, int))
    requires
        !passable(g, (goal.0 - 1, goal.1)),
        !passable(g, (goal.0 + 1, goal.1)),
        !passable(g, (goal.0, goal.1 - 1)),
        !passable(g, (goal.0, goal.1 + 1)),
        manhattan(start, goal) > 1,
    ensures
        !reachable(g, start, goal),
{
    assert forall|r: Seq<(int, int)>| !connects(g, r, start, goal) by {
        if connects(g, r, start, goal) {
            let n = r.len() - 1;
            assert(n > 0);
            assert(can_step(g, r[n - 1], r[n]));
            if !diagonal(r[n - 1], r[n]) {
                // the last move is orthogonal: it leaves a blocked cell,
                // which the route must have entered, or started from
                assert(n - 1 > 0);
                assert(can_step(g, r[n - 2], r[n - 1]));
            }
        }
    }
}

/// A stretch of a route is a route.
pub proof fn lemma_route_stretch(g: Seq<Seq<u32>>, r: Seq<(int, int)>, from: int, to: int)
    requires
        is_route(g, r),
        0 <= from < to <= r.len(),
    ensures
        is_route(g, r.subrange(from, to)),
{
    let s = r.subrange(from, to);
    assert forall|i: int| 0 < i < s.len() implies can_step(g, s[i - 1], #[trigger] s[i]) by {
        assert(can_step(g, r[from + i - 1], r[from + i]));
    }
}

/// The cost of two routes joined by a move is the sum of their costs and of
/// the cost of that move.
pub proof fn lemma_route_cost_joined(g: Seq<Seq<u32>>, x: Seq<(int, int)>, y: Seq<(int, int)>)
    requires
        x.len() > 0,
        y.len() > 0,
    ensures
        route_cost(g, x + y) == route_cost(g, x) + step_cost(g, x.last(), y.first()) + route_cost(
            g,
            y,
        ),
    decreases y.len(),
{
    let xy = x + y;
    if y.len() == 1 {
        assert(xy.drop_last() =~= x);
    } else {
        assert(xy.drop_last() =~= x + y.drop_last());
        lemma_route_cost_joined(g, x, y.drop_last());
    }
}

/// A route that comes by the same cell twice can be cut short: without the
/// round trip between the two visits it links the same ends for less.
pub proof fn lemma_round_trip_cut(g: Seq<Seq<u32>>, r: Seq<(int, int)>, lo: int, hi: int) -> (cut:
    Seq<(int, int)>)
    requires
        is_route(g, r),
        0 <= lo < hi < r.len(),
        r[lo] == r[hi],
    ensures
        connects(g, cut, r.first(), r.last()),
        route_cost(g, cut) < route_cost(g, r),
{
    let head = r.take(lo + 1);
    let ring = r.subrange(lo + 1, hi + 1);
    let upto = r.take(hi + 1);
    lemma_route_stretch(g, r, 0, lo + 1);
    lemma_route_stretch(g, r, lo + 1, hi + 1);
    assert(is_route(g, head)) by {
        assert(head =~= r.subrange(0, lo + 1));
    }
    lemma_route_bounds(g, ring);
    assert(can_step(g, r[lo], r[lo + 1]));
    lemma_step_cost_positive(g, r[lo], r[lo + 1]);
    assert(route_cost(g, upto) > route_cost(g, head)) by {
        lemma_route_cost_joined(g, head, ring);
        assert(head + ring =~= upto);
        assert(head.last() == r[lo]);
        assert(ring.first() == r[lo + 1]);
    }
    if hi + 1 == r.len() {
        assert(upto =~= r);
        assert(head.last() == r.last());
        head
    } else {
        let tail = r.skip(hi + 1);
        let cut = head + tail;
        assert(route_cost(g, r) == route_cost(g, upto) + step_cost(g, r[hi], r[hi + 1])
            + route_cost(g, tail)) by {
            lemma_route_cost_joined(g, upto, tail);
            assert(upto + tail =~= r);
            assert(upto.last() == r[hi]);
            assert(tail.first() == r[hi + 1]);
        }
        assert(route_cost(g, cut) == route_cost(g, head) + step_cost(g, r[hi], r[hi + 1])
            + route_cost(g, tail)) by {
            lemma_route_cost_joined(g, head, tail);
            assert(head.last() == r[hi]);
            assert(tail.first() == r[hi + 1]);
        }
        assert(is_route(g, cut)) by {
            assert forall|k: int| 0 < k < cut.len() implies can_step(
                g,
                cut[k - 1],
                #[trigger] cut[k],
            ) by {
                if k <= lo {
                    assert(cut[k - 1] == r[k - 1] && cut[k] == r[k]);
                    assert(can_step(g, r[k - 1], r[k]));
                } else if k == lo + 1 {
                    assert(cut[k - 1] == r[lo] && cut[k] == r[hi + 1]);
                    assert(can_step(g, r[hi], r[hi + 1]));
                } else {
                    let m = k + hi - lo;
                    assert(cut[k - 1] == r[m - 1] && cut[k] == r[m]);
                    assert(can_step(g, r[m - 1], r[m]));
                }
            }
        }
        assert(cut.first() == r.first());
        assert(cut.last() == r.last());
        cut
    }
}

/// A shortest route enters no cell twice: leaving out the round trip
/// between two visits of a cell would make it cheaper.
pub proof fn lemma_shortest_visits_once(
    g: Seq<Seq<u32>>,
    r: Seq<(int, int)>,
    a: (int, int),
    b: (int, int),
)
    requires
        is_shortest(g, r, a, b),
    ensures
        r.no_duplicates(),
{
    assert forall|i: int, j: int| 0 <= i < r.len() && 0 <= j < r.len() && i != j implies r[i]
        != r[j] by {
        if r[i] == r[j] {
            let cut = if i < j {
                lemma_round_trip_cut(g, r, i, j)
            } else {
                lemma_round_trip_cut(g, r, j, i)
            };
            assert(connects(g, cut, a, b));
        }
    }
}

/// All shortest routes between two cells cost the same.
pub proof fn lemma_shortest_costs_agree(
    g: Seq<Seq<u32>>,
    r: Seq<(int, int)>,
    o: Seq<(int, int)>,
    a: (int, int),
    b: (int, int),
)
    requires
        is_shortest(g, r, a, b),
        is_shortest(g, o, a, b),
    ensures
        route_cost(g, r) == route_cost(g, o),
{
}

/// A route that starts outside a set of cells which no move enters from
/// outside stays outside of it.
proof fn lemma_route_stays_outside(
    g: Seq<Seq<u32>>,
    r: Seq<(int, int)>,
    inside: Set<(int, int)>,
    i: int,
)
    requires
        is_route(g, r),
        !inside.contains(r.first()),
        forall|a: (int, int), b: (int, int)|
            !inside.contains(a) && inside.contains(b) ==> !#[trigger] can_step(g, a, b),
        0 <= i < r.len(),
    ensures
        !inside.contains(r[i]),
    decreases i,
{
    if i > 0 {
        lemma_route_stays_outside(g, r, inside, i - 1);
        assert(can_step(g, r[i - 1], r[i]));
    }
}

/// A goal within a set of cells that no move enters from outside is reached
/// from nowhere outside the set: whatever encloses the goal cuts it off.
pub proof fn lemma_enclosed_goal_unreachable(
    g: Seq<Seq<u32>>,
    start: (int, int),
    goal: (int, int),
    inside: Set<(int, int)>,
)
    requires
        inside.contains(goal),
        !inside.contains(start),
        forall|a: (int, int), b: (int, int)|
            !inside.contains(a) && inside.contains(b) ==> !#[trigger] can_step(g, a, b),
    ensures
        !reachable(g, start, goal),
{
    assert forall|r: Seq<(int, int)>| !connects(g, r, start, goal) by {
        if connects(g, r, start, goal) {
            lemma_route_stays_outside(g, r, inside, r.len() - 1);
        }
    }
}

} // verus!
