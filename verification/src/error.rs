//! The ways a path request can fail.

use vstd::prelude::*;

verus! {

/// Why a request was turned down, or why it produced no report.
#[derive(Clone, Copy, Debug, PartialEq, Eq, Structural)]
pub enum PathError {
    /// The grid has no columns, or its columns have no cells.
    EmptyGrid,
    /// Some column is not as long as the first one.
    RaggedGrid,
    /// The least cost of a route to the goal does not fit in `u32`.
    CostOverflow,
    /// The start position lies outside the grid.
    StartOutOfBounds,
    /// The goal position lies outside the grid.
    GoalOutOfBounds,
    /// No route leads from the start to the goal.
    NoPath,
}

impl PathError {
    /// A sentence that says what went wrong.
    pub open spec fn text(self) -> Seq<char> {
        match self {
            PathError::EmptyGrid => "the grid has no cells"@,
            PathError::RaggedGrid => "the columns of the grid differ in length"@,
            PathError::CostOverflow => "the cost of the shortest path does not fit in 32 bits"@,
            PathError::StartOutOfBounds => "the start lies outside the grid"@,
            PathError::GoalOutOfBounds => "the goal lies outside the grid"@,
            PathError::NoPath => "no path found"@,
        }
    }

    /// A sentence that says what went wrong.
    pub fn describe(&self) -> (s: &'static str)
        ensures
            s@ == self.text(),
    {
        match self {
            PathError::EmptyGrid => "the grid has no cells",
            PathError::RaggedGrid => "the columns of the grid differ in length",
            PathError::CostOverflow => "the cost of the shortest path does not fit in 32 bits",
            PathError::StartOutOfBounds => "the start lies outside the grid",
            PathError::GoalOutOfBounds => "the goal lies outside the grid",
            PathError::NoPath => "no path found",
        }
    }
}

} // verus!
