//! Which requests the search accepts, and which grids a machine can hold:
//! on those, every cost that the search adds up stays within `u128`.

use vstd::prelude::*;
use crate::error::PathError;
use crate::grid::{cells, height, in_bounds, rectangular, weight, width, DIAGONAL_SCALE};

verus! {

/// Sum of the weights of one column.
pub open spec fn column_weight(col: Seq<u32>) -> int
    decreases col.len(),
{
    if col.len() == 0 {
        0
    } else {
        column_weight(col.drop_last()) + col.last() as int
    }
}

/// Sum of the weights of all cells.
pub open spec fn total_weight(g: Seq<Seq<u32>>) -> int
    decreases g.len(),
{
    if g.len() == 0 {
        0
    } else {
        total_weight(g.drop_last()) + column_weight(g.last())
    }
}

/// Largest value that the distance estimate takes between two cells of the
/// grid.
pub open spec fn max_estimate(g: Seq<Seq<u32>>) -> int {
    (width(g) - 1) + (height(g) - 1)
}

/// A route that enters every cell once, by the dearest kind of step, then
/// takes one more step onto any cell, and has the largest estimate added to
/// its cost, stays within `u128`.
pub open spec fn within_budget(g: Seq<Seq<u32>>) -> bool {
    forall|c: (int, int)|
        in_bounds(g, c) ==> DIAGONAL_SCALE * (total_weight(g) + #[trigger] weight(g, c))
            + max_estimate(g) <= u128::MAX
}

/// A machine can hold the grid: if it is rectangular, `usize` can count its
/// cells. Every grid that exists in memory meets this, as each of its cells
/// takes up bytes of its own.
pub open spec fn holdable(g: Seq<Seq<u32>>) -> bool {
    rectangular(g) ==> width(g) * height(g) <= usize::MAX
}

/// What is wrong with a grid, if anything: it has no cells, or its columns
/// differ in length.
pub open spec fn grid_fault(g: Seq<Seq<u32>>) -> Option<PathError> {
    if width(g) == 0 || height(g) == 0 {
        Some(PathError::EmptyGrid)
    } else if !rectangular(g) {
        Some(PathError::RaggedGrid)
    } else {
        None
    }
}

/// The grid can be searched.
pub open spec fn searchable(g: Seq<Seq<u32>>) -> bool {
    grid_fault(g) is None
}

/// What is wrong with a request for a path from `start` to `goal`, if
/// anything: a fault of the grid first, then the start, then the goal.
pub open spec fn request_fault(g: Seq<Seq<u32>>, start: (int, int), goal: (int, int)) -> Option<
    PathError,
> {
    if grid_fault(g) is Some {
        grid_fault(g)
    } else if !in_bounds(g, start) {
        Some(PathError::StartOutOfBounds)
    } else if !in_bounds(g, goal) {
        Some(PathError::GoalOutOfBounds)
    } else {
        None
    }
}

/// Weights are never negative, so neither is their sum.
pub proof fn lemma_column_weight_nonnegative(col: Seq<u32>)
    ensures
        column_weight(col) >= 0,
    decreases col.len(),
{
    if col.len() > 0 {
        lemma_column_weight_nonnegative(col.drop_last());
    }
}

/// Weights are never negative, so neither is their sum.
pub proof fn lemma_total_weight_nonnegative(g: Seq<Seq<u32>>)
    ensures
        total_weight(g) >= 0,
    decreases g.len(),
{
    if g.len() > 0 {
        lemma_total_weight_nonnegative(g.drop_last());
        lemma_column_weight_nonnegative(g.last());
    }
}

/// A column weighs no more than the largest weight for each of its cells.
proof fn lemma_column_weight_bound(col: Seq<u32>)
    ensures
        column_weight(col) <= col.len() * u32::MAX,
    decreases col.len(),
{
    if col.len() > 0 {
        lemma_column_weight_bound(col.drop_last());
        assert((col.len() - 1) * u32::MAX + u32::MAX == col.len() * u32::MAX) by (nonlinear_arith);
    }
}

/// Columns of `h` cells each weigh no more together than the largest weight
/// for each of their cells.
proof fn lemma_total_weight_bound(g: Seq<Seq<u32>>, h: int)
    requires
        forall|x: int| 0 <= x < g.len() ==> (#[trigger] g[x]).len() == h,
    ensures
        total_weight(g) <= g.len() * h * u32::MAX,
    decreases g.len(),
{
    if g.len() > 0 {
        let p = g.drop_last();
        assert forall|x: int| 0 <= x < p.len() implies (#[trigger] p[x]).len() == h by {
            assert(p[x] == g[x]);
        }
        lemma_total_weight_bound(p, h);
        lemma_column_weight_bound(g.last());
        assert(g.last().len() == h);
        assert((g.len() - 1) * h * u32::MAX + h * u32::MAX == g.len() * h * u32::MAX)
            by (nonlinear_arith);
    }
}

/// On a rectangular grid that a machine can hold, no sum of the search
/// leaves `u128`.
pub proof fn lemma_holdable_within_budget(g: Seq<Seq<u32>>)
    requires
        rectangular(g),
        holdable(g),
    ensures
        within_budget(g),
{
    let cells = width(g) * height(g);
    lemma_total_weight_bound(g, height(g));
    assert forall|c: (int, int)| in_bounds(g, c) implies DIAGONAL_SCALE * (total_weight(g)
        + #[trigger] weight(g, c)) + max_estimate(g) <= u128::MAX by {
        let w = width(g);
        let h = height(g);
        assert(w <= w * h && h <= w * h) by (nonlinear_arith)
            requires
                w >= 1,
                h >= 1,
        ;
        assert(w * h * u32::MAX <= 0x1_0000_0000_0000_0000 * 0x1_0000_0000) by (nonlinear_arith)
            requires
                0 <= w * h <= 0x1_0000_0000_0000_0000,
        ;
        assert(weight(g, c) <= u32::MAX);
    }
}

/// Tells whether `usize` can count the cells of a rectangular grid; of a
/// grid that is not rectangular it says yes.
pub fn is_holdable(grid: &Vec<Vec<u32>>) -> (b: bool)
    ensures
        b == holdable(cells(grid)),
{
    match check_grid(grid) {
        Err(PathError::RaggedGrid) => true,
        Err(_) => {
            assert(width(cells(grid)) * height(cells(grid)) == 0) by (nonlinear_arith)
                requires
                    width(cells(grid)) == 0 || height(cells(grid)) == 0,
            ;
            true
        },
        Ok(()) => grid.len().checked_mul(grid[0].len()).is_some(),
    }
}

/// Tells whether the grid can be searched, and if not, why.
pub fn check_grid(grid: &Vec<Vec<u32>>) -> (r: Result<(), PathError>)
    ensures
        r == (match grid_fault(cells(grid)) {
            Some(e) => Err::<(), PathError>(e),
            None => Ok(()),
        }),
{
    let ghost g = cells(grid);
    if grid.len() == 0 {
        return Err(PathError::EmptyGrid);
    }
    let rows = grid[0].len();
    if rows == 0 {
        return Err(PathError::EmptyGrid);
    }
    let mut x: usize = 0;
    while x < grid.len()
        invariant
            g == cells(grid),
            width(g) > 0,
            rows == height(g),
            rows > 0,
            0 <= x <= grid@.len(),
            forall|k: int| 0 <= k < x ==> (#[trigger] g[k]).len() == rows,
        decreases grid@.len() - x,
    {
        if grid[x].len() != rows {
            assert(g[x as int].len() != height(g));
            return Err(PathError::RaggedGrid);
        }
        x = x + 1;
    }
    Ok(())
}

} // verus!
