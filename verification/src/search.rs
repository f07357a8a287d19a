//! The search for a shortest route, and the two requests built on it.

use vstd::prelude::*;
use pathfinding::prelude::astar;
use std::time::Instant;
use crate::budget::{
    check_grid, holdable, lemma_holdable_within_budget, request_fault, searchable, within_budget,
};
use crate::error::PathError;
use crate::grid::{cells, in_bounds};
use crate::heuristic::Heuristic;
use crate::pos::Pos;
use crate::report::{format_report, report_text};
use crate::route::{
    coords, is_shortest, lemma_free_route, lemma_route_bounds, lemma_route_respects_blocks,
    lemma_shortest_visits_once, lemma_stay, reachable, respects_blocks, route_cost, track,
};

verus! {

/// The route that `astar` of `pathfinding` returns on the grid `g` from
/// `start` to `goal`, with the loose estimate or the tight one, where it
/// returns a route. Which of several shortest routes this is follows from
/// the order in which the search takes up the cells, and so from the grid,
/// the two cells and the estimate alone.
pub uninterp spec fn chosen_route(
    g: Seq<Seq<u32>>,
    start: (int, int),
    goal: (int, int),
    loose: bool,
) -> Seq<(int, int)>;

/// What a search from `start` to `goal` returns on the grid `g`: a shortest
/// route, the one that `chosen_route` names, with its cost; or nothing
/// where no route exists.
pub open spec fn is_search_result(
    g: Seq<Seq<u32>>,
    start: (int, int),
    goal: (int, int),
    loose: bool,
    found: Option<(Vec<Pos>, u128)>,
) -> bool {
    match found {
        Some((path, cost)) => {
            &&& track(path@) == chosen_route(g, start, goal, loose)
            &&& is_shortest(g, track(path@), start, goal)
            &&& cost == route_cost(g, track(path@))
        },
        None => !reachable(g, start, goal),
    }
}

/// `pathfinding::directed::astar::astar` on the graph of the grid: its nodes
/// are the cells, `Pos::wide_successors` lists the moves that leave a node,
/// `Heuristic::estimate` estimates the cost left to `goal`, and the search
/// ends at `goal`. The call tells cells apart by the `Eq` and `Hash` that
/// `Pos` derives, that is by their two coordinates, and adds costs up in
/// `u128`.
///
/// Taken on trust from the documentation of `astar`: where the estimate
/// never exceeds the cost of a route to the goal, the call returns a shortest
/// route from `start` to `goal`, both ends included, with the sum of the
/// costs of its moves, and it returns `None` where there is no route. The
/// graph that the call searches is the one that `can_step` and `step_cost`
/// describe: `lemma_neighbors_complete` shows that `Pos::wide_successors`
/// lists exactly those moves at those costs. Taken from the source of
/// `astar`: it keeps its cells in the order in which it met them and its
/// open entries in a binary heap, draws on no chance and no clock, and so
/// returns the same route whenever it is given the same search;
/// `chosen_route` is the name of that route.
///
/// The `requires` keeps the search from leaving the grid and its sums from
/// overflowing. The search starts inside the grid and only moves onto cells
/// that can be entered, so it calls `Pos::wide_successors` on cells of the
/// grid alone. It records a cost for a cell only where that cost is lower
/// than the one recorded before; as every move costs more than nothing, a
/// recorded cost is that of a route which enters no cell twice, and by
/// `lemma_simple_route_cost` at most `DIAGONAL_SCALE * total_weight`. What
/// the search adds up is a recorded cost and the cost of one more move, or
/// a recorded cost and an estimate: `within_budget` keeps both within
/// `u128`.
#[verifier::external_body]
fn shortest_route(grid: &Vec<Vec<u32>>, start: &Pos, goal: &Pos, mode: Heuristic) -> (found: Option<
    (Vec<Pos>, u128),
>)
    requires
        searchable(cells(grid)),
        within_budget(cells(grid)),
        in_bounds(cells(grid), start@),
        in_bounds(cells(grid), goal@),
        mode.admissible(cells(grid), goal@),
    ensures
        match found {
            Some((path, cost)) => {
                &&& track(path@) == chosen_route(
                    cells(grid),
                    start@,
                    goal@,
                    mode == Heuristic::Loose,
                )
                &&& is_shortest(cells(grid), track(path@), start@, goal@)
                &&& cost == route_cost(cells(grid), track(path@))
            },
            None => !reachable(cells(grid), start@, goal@),
        },
{
    astar(
        start,
        |p: &Pos| p.wide_successors(grid),
        |p: &Pos| mode.estimate(p, goal),
        |p: &Pos| p.reached(goal),
    )
}

/// Checks the request, then looks for a shortest route from `start` to
/// `goal` with the estimate `mode`.
pub fn search(grid: &Vec<Vec<u32>>, start: &Pos, goal: &Pos, mode: Heuristic) -> (r: Result<
    Option<(Vec<Pos>, u128)>,
    PathError,
>)
    requires
        holdable(cells(grid)),
    ensures
        match request_fault(cells(grid), start@, goal@) {
            Some(e) => r == Err::<Option<(Vec<Pos>, u128)>, PathError>(e),
            None => r matches Ok(found) && is_search_result(
                cells(grid),
                start@,
                goal@,
                mode == Heuristic::Loose,
                found,
            ),
        },
        r matches Ok(found) ==> (found is Some <==> reachable(cells(grid), start@, goal@)),
{
    match check_grid(grid) {
        Err(e) => {
            return Err(e);
        },
        Ok(()) => {},
    }
    if start.0 >= grid.len() || start.1 >= grid[0].len() {
        return Err(PathError::StartOutOfBounds);
    }
    if goal.0 >= grid.len() || goal.1 >= grid[0].len() {
        return Err(PathError::GoalOutOfBounds);
    }
    proof {
        lemma_holdable_within_budget(cells(grid));
        mode.lemma_admissible(cells(grid), goal@);
    }
    Ok(shortest_route(grid, start, goal, mode))
}

/// What `find_path` hands back for the outcome of a search: the route as
/// coordinate pairs with its cost; `PathError::CostOverflow` where the cost
/// does not fit in `u32`; an empty path and a cost of zero where the search
/// found nothing.
pub fn path_result(found: Option<(Vec<Pos>, u128)>) -> (r: Result<
    (Vec<(usize, usize)>, u32),
    PathError,
>)
    ensures
        match found {
            Some((nodes, cost)) => if cost > u32::MAX {
                r == Err::<(Vec<(usize, usize)>, u32), PathError>(PathError::CostOverflow)
            } else {
                r matches Ok((path, c)) && coords(path@) == track(nodes@) && c == cost
            },
            None => r matches Ok((path, c)) && path@.len() == 0 && c == 0,
        },
{
    match found {
        None => Ok((Vec::new(), 0)),
        Some((nodes, distance)) => {
            if distance > u32::MAX as u128 {
                return Err(PathError::CostOverflow);
            }
            let mut path: Vec<(usize, usize)> = Vec::with_capacity(nodes.len());
            let mut i: usize = 0;
            while i < nodes.len()
                invariant
                    0 <= i <= nodes@.len(),
                    path@.len() == i,
                    forall|k: int|
                        0 <= k < i ==> (#[trigger] path@[k]) == (nodes@[k].0, nodes@[k].1),
                decreases nodes@.len() - i,
            {
                let pos = nodes[i];
                path.push((pos.0, pos.1));
                i = i + 1;
            }
            assert(coords(path@) =~= track(nodes@));
            Ok((path, distance as u32))
        },
    }
}

/// Finds a shortest route from `start` to `end`.
///
/// A request that cannot be served is turned down with the fault that
/// `request_fault` names. Where no route exists, the result is an empty path
/// with a cost of zero; a route is never empty, so an empty path always
/// means that there is none. Otherwise the result is the shortest route that
/// `chosen_route` names, both ends included, with the sum of the costs of
/// its moves; or `PathError::CostOverflow` where that sum, the least cost of
/// any route, does not fit in `u32`.
pub fn find_path(grid: Vec<Vec<u32>>, start: (usize, usize), end: (usize, usize)) -> (r: Result<
    (Vec<(usize, usize)>, u32),
    PathError,
>)
    requires
        holdable(cells(&grid)),
    ensures
        match request_fault(
            cells(&grid),
            (start.0 as int, start.1 as int),
            (end.0 as int, end.1 as int),
        ) {
            Some(e) => r == Err::<(Vec<(usize, usize)>, u32), PathError>(e),
            None => if reachable(
                cells(&grid),
                (start.0 as int, start.1 as int),
                (end.0 as int, end.1 as int),
            ) {
                let route = chosen_route(
                    cells(&grid),
                    (start.0 as int, start.1 as int),
                    (end.0 as int, end.1 as int),
                    false,
                );
                &&& is_shortest(
                    cells(&grid),
                    route,
                    (start.0 as int, start.1 as int),
                    (end.0 as int, end.1 as int),
                )
                &&& respects_blocks(cells(&grid), route)
                &&& route.no_duplicates()
                &&& start == end ==> route == seq![(start.0 as int, start.1 as int)]
                &&& if route_cost(cells(&grid), route) > u32::MAX {
                    r == Err::<(Vec<(usize, usize)>, u32), PathError>(PathError::CostOverflow)
                } else {
                    &&& r matches Ok((path, cost))
                    &&& coords(path@) == route
                    &&& cost == route_cost(cells(&grid), route)
                    &&& start == end ==> path@ == seq![start] && cost == 0
                }
            } else {
                r matches Ok((path, cost)) && path@.len() == 0 && cost == 0
            },
        },
        start == end && request_fault(
            cells(&grid),
            (start.0 as int, start.1 as int),
            (end.0 as int, end.1 as int),
        ) is None ==> (r matches Ok((path, cost)) && path@ == seq![start] && cost == 0),
{
    let start_pos = Pos(start.0, start.1);
    let goal = Pos(end.0, end.1);
    match search(&grid, &start_pos, &goal, Heuristic::Tight) {
        Err(e) => Err(e),
        Ok(found) => {
            proof {
                if start == end {
                    lemma_stay(cells(&grid), start_pos@);
                }
                if found is Some {
                    let route = track(found->Some_0.0@);
                    lemma_route_respects_blocks(cells(&grid), route);
                    lemma_shortest_visits_once(cells(&grid), route, start_pos@, goal@);
                    if start == end {
                        lemma_single_cell(cells(&grid), route, start_pos@);
                    }
                }
            }
            let r = path_result(found);
            proof {
                if start == end {
                    let path = r->Ok_0.0;
                    assert(coords(path@)[0] == start_pos@);
                    assert(path@ =~= seq![start]);
                }
            }
            r
        },
    }
}

/// The only shortest route from a cell to itself is the cell alone, and it
/// costs nothing.
pub proof fn lemma_single_cell(g: Seq<Seq<u32>>, r: Seq<(int, int)>, a: (int, int))
    requires
        is_shortest(g, r, a, a),
    ensures
        r == seq![a],
        route_cost(g, r) == 0,
{
    lemma_stay(g, a);
    lemma_route_bounds(g, r);
    lemma_free_route(g, r);
    assert(r =~= seq![a]);
}

/// Times a search from `(start_x, start_y)` to `(x, y)` with the loose
/// estimate and reports on it.
///
/// A request that cannot be served is turned down with the fault that
/// `request_fault` names, and one whose goal cannot be reached with
/// `PathError::NoPath`. Otherwise the result is the report on the shortest
/// route that `chosen_route` names; only the time in it depends on the run.
pub fn debug_path(grid: Vec<Vec<u32>>, start_x: usize, start_y: usize, x: usize, y: usize) -> (r:
    Result<String, PathError>)
    requires
        holdable(cells(&grid)),
    ensures
        match request_fault(cells(&grid), (start_x as int, start_y as int), (x as int, y as int)) {
            Some(e) => r == Err::<String, PathError>(e),
            None => if reachable(
                cells(&grid),
                (start_x as int, start_y as int),
                (x as int, y as int),
            ) {
                let route = chosen_route(
                    cells(&grid),
                    (start_x as int, start_y as int),
                    (x as int, y as int),
                    true,
                );
                &&& is_shortest(
                    cells(&grid),
                    route,
                    (start_x as int, start_y as int),
                    (x as int, y as int),
                )
                &&& r matches Ok(text)
                &&& exists|micros: nat|
                    text@ == #[trigger] report_text(
                        micros,
                        route,
                        route_cost(cells(&grid), route) as nat,
                        (start_x as int, start_y as int),
                        (x as int, y as int),
                    )
            } else {
                r == Err::<String, PathError>(PathError::NoPath)
            },
        },
{
    let now = Instant::now();
    let start = Pos(start_x, start_y);
    let goal = Pos(x, y);
    match search(&grid, &start, &goal, Heuristic::Loose) {
        Err(e) => Err(e),
        Ok(None) => Err(PathError::NoPath),
        Ok(Some((path, distance))) => {
            let time_taken = now.elapsed().as_micros();
            let text = format_report(time_taken, &path, distance, &start, &goal);
            assert(text@ == report_text(
                time_taken as nat,
                track(path@),
                route_cost(cells(&grid), track(path@)) as nat,
                start@,
                goal@,
            ));
            Ok(text)
        },
    }
}

} // verus!
