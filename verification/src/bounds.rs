//! Why the costs of a search stay within the budget of a grid: a route that
//! enters no cell twice costs no more than a diagonal step onto every cell.

use vstd::prelude::*;
use crate::budget::{column_weight, lemma_total_weight_nonnegative, total_weight};
use crate::grid::{height, in_bounds, rectangular, weight, width, DIAGONAL_SCALE};
use crate::route::{is_route, lemma_route_prefix, route_cost};

verus! {

/// Sum of the weights of the cells of `r` after the first: of the cells that
/// a route along `r` enters.
pub open spec fn entered_weight(g: Seq<Seq<u32>>, r: Seq<(int, int)>) -> int
    decreases r.len(),
{
    if r.len() <= 1 {
        0
    } else {
        entered_weight(g, r.drop_last()) + weight(g, r.last())
    }
}

/// The grid with the cell `c` blocked.
pub open spec fn blocked_at(g: Seq<Seq<u32>>, c: (int, int)) -> Seq<Seq<u32>> {
    g.update(c.0, g[c.0].update(c.1, 0u32))
}

/// Blocking a cell takes its weight off its column.
proof fn lemma_column_blocked(col: Seq<u32>, y: int)
    requires
        0 <= y < col.len(),
    ensures
        column_weight(col.update(y, 0u32)) == column_weight(col) - col[y],
    decreases col.len(),
{
    let changed = col.update(y, 0u32);
    if y == col.len() - 1 {
        assert(changed.drop_last() =~= col.drop_last());
    } else {
        assert(changed.drop_last() =~= col.drop_last().update(y, 0u32));
        lemma_column_blocked(col.drop_last(), y);
    }
}

/// Replacing a column changes the total weight by the difference of the
/// two columns.
proof fn lemma_column_replaced(g: Seq<Seq<u32>>, x: int, col: Seq<u32>)
    requires
        0 <= x < g.len(),
    ensures
        total_weight(g.update(x, col)) == total_weight(g) - column_weight(g[x])
            + column_weight(col),
    decreases g.len(),
{
    let changed = g.update(x, col);
    if x == g.len() - 1 {
        assert(changed.drop_last() =~= g.drop_last());
    } else {
        assert(changed.drop_last() =~= g.drop_last().update(x, col));
        lemma_column_replaced(g.drop_last(), x, col);
    }
}

/// Blocking a cell takes its weight off the grid and leaves the shape of the
/// grid and all other weights as they are.
proof fn lemma_blocked_at(g: Seq<Seq<u32>>, c: (int, int))
    requires
        rectangular(g),
        in_bounds(g, c),
    ensures
        rectangular(blocked_at(g, c)),
        width(blocked_at(g, c)) == width(g),
        height(blocked_at(g, c)) == height(g),
        total_weight(blocked_at(g, c)) == total_weight(g) - weight(g, c),
        forall|o: (int, int)| o != c ==> weight(blocked_at(g, c), o) == weight(g, o),
{
    let b = blocked_at(g, c);
    assert(g[c.0].len() == height(g));
    lemma_column_blocked(g[c.0], c.1);
    lemma_column_replaced(g, c.0, g[c.0].update(c.1, 0u32));
    assert(height(b) == height(g));
    assert forall|x: int| 0 <= x < b.len() implies (#[trigger] b[x]).len() == height(b) by {
        assert(g[x].len() == height(g));
    }
    assert forall|o: (int, int)| o != c implies weight(b, o) == weight(g, o) by {
        if in_bounds(g, o) {
            assert(g[o.0].len() == height(g));
        }
    }
}

/// Two grids that agree on the cells of `r` give them the same weight in
/// all.
proof fn lemma_entered_weight_agrees(g: Seq<Seq<u32>>, h: Seq<Seq<u32>>, r: Seq<(int, int)>)
    requires
        forall|i: int| 0 <= i < r.len() ==> weight(g, #[trigger] r[i]) == weight(h, r[i]),
    ensures
        entered_weight(g, r) == entered_weight(h, r),
    decreases r.len(),
{
    if r.len() > 1 {
        let p = r.drop_last();
        assert forall|i: int| 0 <= i < p.len() implies weight(g, #[trigger] p[i]) == weight(
            h,
            p[i],
        ) by {
            assert(p[i] == r[i]);
        }
        lemma_entered_weight_agrees(g, h, p);
        assert(weight(g, r[r.len() - 1]) == weight(h, r[r.len() - 1]));
    }
}

/// Cells that are all different weigh no more together than the grid.
pub proof fn lemma_distinct_cells_weight(g: Seq<Seq<u32>>, r: Seq<(int, int)>)
    requires
        rectangular(g),
        r.no_duplicates(),
    ensures
        entered_weight(g, r) <= total_weight(g),
    decreases r.len(),
{
    lemma_total_weight_nonnegative(g);
    if r.len() > 1 {
        let p = r.drop_last();
        let c = r.last();
        assert(p.no_duplicates()) by {
            assert forall|i: int, j: int|
                0 <= i < p.len() && 0 <= j < p.len() && i != j implies p[i] != p[j] by {
                assert(p[i] == r[i] && p[j] == r[j]);
            }
        }
        if in_bounds(g, c) {
            let b = blocked_at(g, c);
            lemma_blocked_at(g, c);
            assert forall|i: int| 0 <= i < p.len() implies weight(g, #[trigger] p[i]) == weight(
                b,
                p[i],
            ) by {
                assert(p[i] == r[i] && r[i] != r[r.len() - 1]);
            }
            lemma_entered_weight_agrees(g, b, p);
            lemma_distinct_cells_weight(b, p);
        } else {
            lemma_distinct_cells_weight(g, p);
        }
    }
}

/// A route costs no more than a diagonal step onto each cell that it
/// enters.
pub proof fn lemma_route_cost_by_weight(g: Seq<Seq<u32>>, r: Seq<(int, int)>)
    requires
        is_route(g, r),
    ensures
        route_cost(g, r) <= DIAGONAL_SCALE * entered_weight(g, r),
    decreases r.len(),
{
    if r.len() > 1 {
        lemma_route_prefix(g, r);
        lemma_route_cost_by_weight(g, r.drop_last());
    }
}

/// A route that enters no cell twice costs no more than a diagonal step
/// onto every cell of the grid.
pub proof fn lemma_simple_route_cost(g: Seq<Seq<u32>>, r: Seq<(int, int)>)
    requires
        rectangular(g),
        is_route(g, r),
        r.no_duplicates(),
    ensures
        route_cost(g, r) <= DIAGONAL_SCALE * total_weight(g),
{
    lemma_route_cost_by_weight(g, r);
    lemma_distinct_cells_weight(g, r);
}

} // verus!
