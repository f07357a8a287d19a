//! Grid positions and the moves that leave them.

use vstd::prelude::*;
use crate::grid::{
    arc, cells, height, in_bounds, neighbors, rectangular, weight, DIAGONAL_SCALE,
    ORTHOGONAL_SCALE,
};

verus! {

/// A cell of the grid, by column `x` and index `y` within the column.
#[derive(Clone, Copy, Debug, PartialEq, Eq, PartialOrd, Ord, Hash, Structural)]
pub struct Pos(pub usize, pub usize);

impl View for Pos {
    type V = (int, int);

    open spec fn view(&self) -> (int, int) {
        (self.0 as int, self.1 as int)
    }
}

/// Moves as returned by `Pos::successors`, over mathematical integers.
pub open spec fn moves(out: Seq<(Pos, u32)>) -> Seq<((int, int), int)> {
    Seq::new(out.len(), |i: int| (out[i].0@, out[i].1 as int))
}

/// Moves as returned by `Pos::wide_successors`, over mathematical integers.
pub open spec fn wide_moves(out: Seq<(Pos, u128)>) -> Seq<((int, int), int)> {
    Seq::new(out.len(), |i: int| (out[i].0@, out[i].1 as int))
}

/// Sum of the distances along each axis.
pub open spec fn manhattan(a: (int, int), b: (int, int)) -> int {
    (if a.0 >= b.0 { a.0 - b.0 } else { b.0 - a.0 })
    + (if a.1 >= b.1 { a.1 - b.1 } else { b.1 - a.1 })
}

/// Appends the moves from `from` into the column `nx` next to its own: the
/// orthogonal one, then the diagonal ones, downwards first. `val_side`,
/// `val_down` and `val_up` are the weights of the cells beside, below and
/// above `from`.
fn push_column_moves(
    arr: &mut Vec<(Pos, u128)>,
    grid: &Vec<Vec<u32>>,
    from: Pos,
    nx: usize,
    val_side: u32,
    val_down: u32,
    val_up: u32,
)
    requires
        rectangular(cells(grid)),
        in_bounds(cells(grid), from@),
        nx == from.0 + 1 || nx + 1 == from.0,
        val_side == weight(cells(grid), (nx as int, from.1 as int)),
        val_down == weight(cells(grid), (from.0 as int, from.1 - 1)),
        val_up == weight(cells(grid), (from.0 as int, from.1 + 1)),
    ensures
        wide_moves(final(arr)@) == wide_moves(old(arr)@) + arc(cells(grid), from@, nx - from.0, 0)
            + arc(cells(grid), from@, nx - from.0, -1) + arc(cells(grid), from@, nx - from.0, 1),
{
    let y = from.1;
    let ghost g = cells(grid);
    let ghost c = from@;
    let ghost dx = nx - from.0;
    let ghost before = wide_moves(arr@);
    if val_side > 0 {
        assert(g[nx as int].len() == height(g));
        push_move(arr, Pos(nx, y), val_side, ORTHOGONAL_SCALE);
        if val_down > 0 {
            let diag_val = grid[nx][y - 1];
            if diag_val > 0 {
                push_move(arr, Pos(nx, y - 1), diag_val, DIAGONAL_SCALE);
            }
        }
        assert(wide_moves(arr@) =~= before + arc(g, c, dx, 0) + arc(g, c, dx, -1));
        if val_up > 0 {
            assert(y + 1 < height(g) == grid[0].len());
            let diag_val = grid[nx][y + 1];
            if diag_val > 0 {
                push_move(arr, Pos(nx, y + 1), diag_val, DIAGONAL_SCALE);
            }
        }
    }
    assert(wide_moves(arr@) =~= before + arc(g, c, dx, 0) + arc(g, c, dx, -1) + arc(g, c, dx, 1));
}

/// Appends the move onto the cell `to` of weight `val`, at `val` times
/// `scale`.
fn push_move(arr: &mut Vec<(Pos, u128)>, to: Pos, val: u32, scale: u32)
    ensures
        wide_moves(final(arr)@) == wide_moves(old(arr)@).push((to@, val * scale)),
{
    assert(val * scale <= u32::MAX * u32::MAX) by (nonlinear_arith)
        requires
            0 <= val <= u32::MAX,
            0 <= scale <= u32::MAX,
    ;
    arr.push((to, val as u128 * scale as u128));
    assert(wide_moves(arr@) =~= wide_moves(old(arr)@).push((to@, val * scale)));
}

/// `usize::abs_diff` of the standard library: the larger of the two numbers
/// less the smaller, which always fits.
pub assume_specification[ usize::abs_diff ](x: usize, y: usize) -> (d: usize)
    ensures
        d == if x >= y {
            x - y
        } else {
            y - x
        },
;

impl Pos {
    /// Sum of the distances to `other` along each axis.
    pub fn distance(&self, other: &Pos) -> (d: u32)
        requires
            manhattan(self@, other@) <= u32::MAX,
        ensures
            d == manhattan(self@, other@),
    {
        (self.0.abs_diff(other.0) + self.1.abs_diff(other.1)) as u32
    }

    /// Sum of the distances to `other` along each axis, in a width that
    /// holds it for every two positions.
    pub fn wide_distance(&self, other: &Pos) -> (d: u128)
        ensures
            d == manhattan(self@, other@),
    {
        self.0.abs_diff(other.0) as u128 + self.1.abs_diff(other.1) as u128
    }

    /// Tells whether `self` is the cell `goal`.
    pub fn reached(&self, goal: &Pos) -> (b: bool)
        ensures
            b == (self@ == goal@),
    {
        self.0 == goal.0 && self.1 == goal.1
    }

    /// The cells that one move from `self` can reach, each with the cost of
    /// that move, in a width that holds the cost of every move on every
    /// grid.
    pub fn wide_successors(&self, grid: &Vec<Vec<u32>>) -> (out: Vec<(Pos, u128)>)
        requires
            rectangular(cells(grid)),
            in_bounds(cells(grid), self@),
        ensures
            wide_moves(out@) == neighbors(cells(grid), self@),
    {
        let x = self.0;
        let y = self.1;
        let ghost g = cells(grid);
        let ghost c = self@;
        let mut arr: Vec<(Pos, u128)> = Vec::with_capacity(8);
        assert(wide_moves(arr@) =~= Seq::empty());

        let mut val_left: u32 = 0;
        let mut val_down: u32 = 0;
        let mut val_right: u32 = 0;
        let mut val_up: u32 = 0;

        assert(x < grid.len() && y < grid[0].len());
        assert(g[c.0].len() == height(g));
        if x > 0 {
            assert(g[c.0 - 1].len() == height(g));
            val_left = grid[x - 1][y];
        }
        if y > 0 {
            val_down = grid[x][y - 1];
        }
        if x + 1 < grid.len() {
            assert(g[c.0 + 1].len() == height(g));
            val_right = grid[x + 1][y];
        }
        if y + 1 < grid[0].len() {
            val_up = grid[x][y + 1];
        }

        if x > 0 {
            push_column_moves(&mut arr, grid, *self, x - 1, val_left, val_down, val_up);
        }
        assert(wide_moves(arr@) =~= arc(g, c, -1, 0) + arc(g, c, -1, -1) + arc(g, c, -1, 1));
        let ghost left = wide_moves(arr@);
        if x + 1 < grid.len() {
            push_column_moves(&mut arr, grid, *self, x + 1, val_right, val_down, val_up);
        }
        assert(wide_moves(arr@) =~= left + arc(g, c, 1, 0) + arc(g, c, 1, -1) + arc(g, c, 1, 1));
        let ghost sides = wide_moves(arr@);
        if val_up > 0 {
            push_move(&mut arr, Pos(x, y + 1), val_up, ORTHOGONAL_SCALE);
        }
        assert(wide_moves(arr@) =~= sides + arc(g, c, 0, 1));
        let ghost upper = wide_moves(arr@);
        if val_down > 0 {
            push_move(&mut arr, Pos(x, y - 1), val_down, ORTHOGONAL_SCALE);
        }
        assert(wide_moves(arr@) =~= upper + arc(g, c, 0, -1));
        arr
    }

    /// The cells that one move from `self` can reach, each with the cost of
    /// that move.
    pub fn successors(&self, grid: &Vec<Vec<u32>>) -> (out: Vec<(Pos, u32)>)
        requires
            rectangular(cells(grid)),
            in_bounds(cells(grid), self@),
            forall|i: int|
                0 <= i < neighbors(cells(grid), self@).len() ==> (#[trigger] neighbors(
                    cells(grid),
                    self@,
                )[i]).1 <= u32::MAX,
        ensures
            moves(out@) == neighbors(cells(grid), self@),
    {
        let wide = self.wide_successors(grid);
        let mut arr: Vec<(Pos, u32)> = Vec::with_capacity(wide.len());
        let mut i: usize = 0;
        while i < wide.len()
            invariant
                0 <= i <= wide@.len(),
                arr@.len() == i,
                wide_moves(wide@) == neighbors(cells(grid), self@),
                forall|k: int|
                    0 <= k < wide@.len() ==> (#[trigger] neighbors(cells(grid), self@)[k]).1
                        <= u32::MAX,
                forall|k: int|
                    0 <= k < i ==> (#[trigger] arr@[k]).0 == wide@[k].0 && arr@[k].1 == wide@[k].1,
            decreases wide@.len() - i,
        {
            let (to, cost) = wide[i];
            assert(cost == wide_moves(wide@)[i as int].1);
            arr.push((to, cost as u32));
            i = i + 1;
        }
        assert(moves(arr@) =~= wide_moves(wide@));
        arr
    }
}

} // verus!
