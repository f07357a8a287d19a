//! The cost model: which cells of a weighted grid can be entered from which,
//! and what each such step costs.
//!
//! A grid is held as `grid[x][y]`: a vector of columns, each a vector of
//! cell weights. A weight of zero marks a cell that cannot be entered.

use vstd::prelude::*;
use vstd::seq_lib::lemma_seq_concat_contains_all_elements;

verus! {

/// Cost of entering a cell of weight one from an orthogonal neighbour.
pub const ORTHOGONAL_SCALE: u32 = 10000;

/// Cost of entering a cell of weight one from a diagonal neighbour:
/// the square root of two on the scale of `ORTHOGONAL_SCALE`.
pub const DIAGONAL_SCALE: u32 = 14142;

/// The weights of a grid as a sequence of columns.
pub open spec fn cells(grid: &Vec<Vec<u32>>) -> Seq<Seq<u32>> {
    Seq::new(grid@.len(), |x: int| grid@[x]@)
}

/// Number of columns.
pub open spec fn width(g: Seq<Seq<u32>>) -> int {
    g.len() as int
}

/// Number of cells in the first column, which every column of a
/// rectangular grid shares.
pub open spec fn height(g: Seq<Seq<u32>>) -> int {
    if g.len() > 0 {
        g[0].len() as int
    } else {
        0
    }
}

/// Every column is as long as the first.
pub open spec fn rectangular(g: Seq<Seq<u32>>) -> bool {
    forall|x: int| 0 <= x < g.len() ==> (#[trigger] g[x]).len() == height(g)
}

/// The cell lies inside the grid.
pub open spec fn in_bounds(g: Seq<Seq<u32>>, c: (int, int)) -> bool {
    0 <= c.0 < width(g) && 0 <= c.1 < height(g)
}

/// Weight of a cell; zero for every cell outside the grid.
pub open spec fn weight(g: Seq<Seq<u32>>, c: (int, int)) -> int {
    if in_bounds(g, c) {
        g[c.0][c.1] as int
    } else {
        0
    }
}

/// The cell can be entered: it lies inside the grid and its weight is not zero.
pub open spec fn passable(g: Seq<Seq<u32>>, c: (int, int)) -> bool {
    weight(g, c) > 0
}

/// The two cells differ in both coordinates.
pub open spec fn diagonal(a: (int, int), b: (int, int)) -> bool {
    a.0 != b.0 && a.1 != b.1
}

/// A single move from `a` to `b` is allowed: `b` is one of the eight cells
/// around `a`, `b` can be entered, and a diagonal move does not cut a corner,
/// that is both cells that flank it can be entered too.
pub open spec fn can_step(g: Seq<Seq<u32>>, a: (int, int), b: (int, int)) -> bool {
    &&& -1 <= b.0 - a.0 <= 1
    &&& -1 <= b.1 - a.1 <= 1
    &&& a != b
    &&& passable(g, b)
    &&& diagonal(a, b) ==> passable(g, (b.0, a.1)) && passable(g, (a.0, b.1))
}

/// Cost of the move from `a` to `b`: the weight of `b`, scaled by the length
/// of the move.
pub open spec fn step_cost(g: Seq<Seq<u32>>, a: (int, int), b: (int, int)) -> int {
    if diagonal(a, b) {
        weight(g, b) * DIAGONAL_SCALE
    } else {
        weight(g, b) * ORTHOGONAL_SCALE
    }
}

/// The move from `c` by `(dx, dy)`, with its cost, if it is allowed.
pub open spec fn arc(g: Seq<Seq<u32>>, c: (int, int), dx: int, dy: int) -> Seq<((int, int), int)> {
    let to = (c.0 + dx, c.1 + dy);
    if can_step(g, c, to) {
        seq![(to, step_cost(g, c, to))]
    } else {
        Seq::empty()
    }
}

/// The moves allowed from `c`, each with its cost, in a fixed order: left,
/// left-down, left-up, right, right-down, right-up, up, down.
pub open spec fn neighbors(g: Seq<Seq<u32>>, c: (int, int)) -> Seq<((int, int), int)> {
    arc(g, c, -1, 0) + arc(g, c, -1, -1) + arc(g, c, -1, 1) + arc(g, c, 1, 0) + arc(g, c, 1, -1)
        + arc(g, c, 1, 1) + arc(g, c, 0, 1) + arc(g, c, 0, -1)
}

/// `neighbors` lists exactly the allowed moves, each with its cost.
pub proof fn lemma_neighbors_complete(g: Seq<Seq<u32>>, c: (int, int), b: (int, int), cost: int)
    ensures
        neighbors(g, c).contains((b, cost)) <==> can_step(g, c, b) && cost == step_cost(g, c, b),
{
    let e = (b, cost);
    let a0 = arc(g, c, -1, 0);
    let a1 = arc(g, c, -1, -1);
    let a2 = arc(g, c, -1, 1);
    let a3 = arc(g, c, 1, 0);
    let a4 = arc(g, c, 1, -1);
    let a5 = arc(g, c, 1, 1);
    let a6 = arc(g, c, 0, 1);
    let a7 = arc(g, c, 0, -1);
    lemma_seq_concat_contains_all_elements(a0, a1, e);
    lemma_seq_concat_contains_all_elements(a0 + a1, a2, e);
    lemma_seq_concat_contains_all_elements(a0 + a1 + a2, a3, e);
    lemma_seq_concat_contains_all_elements(a0 + a1 + a2 + a3, a4, e);
    lemma_seq_concat_contains_all_elements(a0 + a1 + a2 + a3 + a4, a5, e);
    lemma_seq_concat_contains_all_elements(a0 + a1 + a2 + a3 + a4 + a5, a6, e);
    lemma_seq_concat_contains_all_elements(a0 + a1 + a2 + a3 + a4 + a5 + a6, a7, e);
    lemma_arc_contains(g, c, -1, 0, e);
    lemma_arc_contains(g, c, -1, -1, e);
    lemma_arc_contains(g, c, -1, 1, e);
    lemma_arc_contains(g, c, 1, 0, e);
    lemma_arc_contains(g, c, 1, -1, e);
    lemma_arc_contains(g, c, 1, 1, e);
    lemma_arc_contains(g, c, 0, 1, e);
    lemma_arc_contains(g, c, 0, -1, e);
}

/// Every neighbour lies inside the grid, and the move to it costs at least
/// one orthogonal step onto a cell of weight one.
pub proof fn lemma_neighbors_inside(g: Seq<Seq<u32>>, c: (int, int), i: int)
    requires
        0 <= i < neighbors(g, c).len(),
    ensures
        in_bounds(g, neighbors(g, c)[i].0),
        neighbors(g, c)[i].1 >= ORTHOGONAL_SCALE,
{
    let e = neighbors(g, c)[i];
    assert(neighbors(g, c).contains(e));
    lemma_neighbors_complete(g, c, e.0, e.1);
}

/// What `arc` holds: the move by `(dx, dy)` with its cost, where it is
/// allowed, and nothing else.
proof fn lemma_arc_contains(g: Seq<Seq<u32>>, c: (int, int), dx: int, dy: int, e: ((int, int), int))
    ensures
        arc(g, c, dx, dy).contains(e) <==> e.0 == (c.0 + dx, c.1 + dy) && can_step(g, c, e.0) && e.1
            == step_cost(g, c, e.0),
{
    let to = (c.0 + dx, c.1 + dy);
    if can_step(g, c, to) {
        let s = seq![(to, step_cost(g, c, to))];
        assert(s[0] == (to, step_cost(g, c, to)));
        if e == s[0] {
            assert(s.contains(e));
        }
    }
}

/// Position of a direction in the order in which `neighbors` lists the
/// moves.
spec fn rank(dx: int, dy: int) -> int {
    if dx == -1 {
        if dy == 0 {
            0
        } else if dy == -1 {
            1
        } else {
            2
        }
    } else if dx == 1 {
        if dy == 0 {
            3
        } else if dy == -1 {
            4
        } else {
            5
        }
    } else if dy == 1 {
        6
    } else {
        7
    }
}

/// The first `k` directions in the order of `neighbors` give a list whose
/// moves come in that order.
spec fn ranked(s: Seq<((int, int), int)>, c: (int, int), k: int) -> bool {
    &&& s.len() <= k
    &&& forall|i: int| 0 <= i < s.len() ==> rank((#[trigger] s[i]).0.0 - c.0, s[i].0.1 - c.1) < k
    &&& forall|i: int, j: int|
        0 <= i < j < s.len() ==> rank((#[trigger] s[i]).0.0 - c.0, s[i].0.1 - c.1) < rank(
            (#[trigger] s[j]).0.0 - c.0,
            s[j].0.1 - c.1,
        )
}

/// Adding the next direction keeps the order.
proof fn lemma_ranked_extend(
    g: Seq<Seq<u32>>,
    s: Seq<((int, int), int)>,
    c: (int, int),
    dx: int,
    dy: int,
)
    requires
        ranked(s, c, rank(dx, dy)),
    ensures
        ranked(s + arc(g, c, dx, dy), c, rank(dx, dy) + 1),
{
}

/// A cell has at most eight neighbours, and `neighbors` lists none of them
/// twice.
pub proof fn lemma_neighbors_distinct(g: Seq<Seq<u32>>, c: (int, int))
    ensures
        neighbors(g, c).len() <= 8,
        forall|i: int, j: int|
            0 <= i < j < neighbors(g, c).len() ==> (#[trigger] neighbors(g, c)[i]).0 != (
            #[trigger] neighbors(g, c)[j]).0,
{
    let a0 = arc(g, c, -1, 0);
    let a1 = arc(g, c, -1, -1);
    let a2 = arc(g, c, -1, 1);
    let a3 = arc(g, c, 1, 0);
    let a4 = arc(g, c, 1, -1);
    let a5 = arc(g, c, 1, 1);
    let a6 = arc(g, c, 0, 1);
    let a7 = arc(g, c, 0, -1);
    assert(Seq::<((int, int), int)>::empty() + a0 =~= a0);
    lemma_ranked_extend(g, Seq::empty(), c, -1, 0);
    lemma_ranked_extend(g, a0, c, -1, -1);
    lemma_ranked_extend(g, a0 + a1, c, -1, 1);
    lemma_ranked_extend(g, a0 + a1 + a2, c, 1, 0);
    lemma_ranked_extend(g, a0 + a1 + a2 + a3, c, 1, -1);
    lemma_ranked_extend(g, a0 + a1 + a2 + a3 + a4, c, 1, 1);
    lemma_ranked_extend(g, a0 + a1 + a2 + a3 + a4 + a5, c, 0, 1);
    lemma_ranked_extend(g, a0 + a1 + a2 + a3 + a4 + a5 + a6, c, 0, -1);
    assert(ranked(neighbors(g, c), c, 8));
}

} // verus!
