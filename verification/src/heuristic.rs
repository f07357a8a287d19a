//! The two estimates of the cost that is left to the goal.

use vstd::prelude::*;
use crate::grid::ORTHOGONAL_SCALE;
use crate::pos::{manhattan, Pos};
use crate::route::{is_route, lemma_route_bounds, route_cost};

verus! {

/// What the loose estimate divides the distance by.
pub const LOOSE_DIVISOR: u32 = 3;

/// How the search estimates the cost from a cell to the goal. Both
/// estimates count cells, not the scaled cost of entering them, so neither
/// ever exceeds the true cost that is left.
#[derive(Clone, Copy, Debug, PartialEq, Eq, Structural)]
pub enum Heuristic {
    /// The distance along both axes.
    Tight,
    /// A third of that distance, rounded down.
    Loose,
}

impl Heuristic {
    /// The estimate from `from` to `goal` as a number.
    pub open spec fn bound(self, from: (int, int), goal: (int, int)) -> int {
        match self {
            Heuristic::Tight => manhattan(from, goal),
            Heuristic::Loose => manhattan(from, goal) / (LOOSE_DIVISOR as int),
        }
    }

    /// The estimate never exceeds the cost of a route to `goal`.
    pub open spec fn admissible(self, g: Seq<Seq<u32>>, goal: (int, int)) -> bool {
        forall|r: Seq<(int, int)>| #[trigger]
            is_route(g, r) && r.last() == goal ==> self.bound(r.first(), goal) <= route_cost(g, r)
    }

    /// Estimates the cost from `from` to `goal`.
    pub fn estimate(&self, from: &Pos, goal: &Pos) -> (h: u128)
        ensures
            h == self.bound(from@, goal@),
    {
        match self {
            Heuristic::Tight => from.wide_distance(goal),
            Heuristic::Loose => from.wide_distance(goal) / (LOOSE_DIVISOR as u128),
        }
    }

    /// Neither estimate exceeds the cost of any route to the goal, on any
    /// grid: a move brings the goal closer by two at most, and costs more
    /// than that.
    pub proof fn lemma_admissible(self, g: Seq<Seq<u32>>, goal: (int, int))
        ensures
            self.admissible(g, goal),
    {
        assert forall|r: Seq<(int, int)>| #[trigger]
            is_route(g, r) && r.last() == goal implies self.bound(r.first(), goal) <= route_cost(
            g,
            r,
        ) by {
            lemma_route_bounds(g, r);
            assert(ORTHOGONAL_SCALE * (r.len() - 1) >= 2 * (r.len() - 1));
        }
    }
}

} // verus!
