use gridpath::{find_path, PathError};

const ORTHOGONAL: u32 = 10000;
const DIAGONAL: u32 = 14142;

fn open_grid(width: usize, height: usize) -> Vec<Vec<u32>> {
    vec![vec![1; height]; width]
}

fn weight_at(grid: &Vec<Vec<u32>>, x: i64, y: i64) -> u32 {
    if x < 0 || y < 0 || x as usize >= grid.len() || y as usize >= grid[0].len() {
        0
    } else {
        grid[x as usize][y as usize]
    }
}

/// Cost of one move, worked out from the grid alone; `None` where the move
/// is not allowed.
fn move_cost(grid: &Vec<Vec<u32>>, from: (usize, usize), to: (usize, usize)) -> Option<u32> {
    let (fx, fy) = (from.0 as i64, from.1 as i64);
    let (tx, ty) = (to.0 as i64, to.1 as i64);
    let (dx, dy) = (tx - fx, ty - fy);
    if dx.abs() > 1 || dy.abs() > 1 || (dx == 0 && dy == 0) {
        return None;
    }
    let w = weight_at(grid, tx, ty);
    if w == 0 {
        return None;
    }
    if dx != 0 && dy != 0 {
        if weight_at(grid, tx, fy) == 0 || weight_at(grid, fx, ty) == 0 {
            return None;
        }
        Some(w * DIAGONAL)
    } else {
        Some(w * ORTHOGONAL)
    }
}

/// Sum of the move costs along a path; panics where a move is not allowed.
fn recomputed_cost(grid: &Vec<Vec<u32>>, path: &Vec<(usize, usize)>) -> u32 {
    let mut total = 0;
    for i in 1..path.len() {
        total += move_cost(grid, path[i - 1], path[i]).unwrap();
    }
    total
}

/// Least cost from `start` to every cell, by relaxing every move until
/// nothing changes.
fn exhaustive_costs(grid: &Vec<Vec<u32>>, start: (usize, usize)) -> Vec<Vec<Option<u32>>> {
    let width = grid.len();
    let height = grid[0].len();
    let mut best: Vec<Vec<Option<u32>>> = vec![vec![None; height]; width];
    best[start.0][start.1] = Some(0);
    let mut changed = true;
    while changed {
        changed = false;
        for x in 0..width {
            for y in 0..height {
                let Some(here) = best[x][y] else { continue };
                for nx in x.saturating_sub(1)..(x + 2).min(width) {
                    for ny in y.saturating_sub(1)..(y + 2).min(height) {
                        if let Some(c) = move_cost(grid, (x, y), (nx, ny)) {
                            let candidate = here + c;
                            if best[nx][ny].map_or(true, |b| candidate < b) {
                                best[nx][ny] = Some(candidate);
                                changed = true;
                            }
                        }
                    }
                }
            }
        }
    }
    best
}

fn fixtures() -> Vec<Vec<Vec<u32>>> {
    vec![
        open_grid(3, 3),
        open_grid(1, 5),
        open_grid(4, 2),
        vec![vec![1, 1, 1], vec![1, 0, 1], vec![1, 1, 1]],
        vec![vec![1, 5, 1, 1], vec![1, 5, 0, 1], vec![1, 5, 1, 1], vec![1, 1, 1, 9]],
        vec![vec![1, 0, 1], vec![0, 0, 1], vec![1, 1, 1]],
        vec![vec![2, 3, 4], vec![0, 0, 0], vec![7, 1, 1]],
        vec![vec![1, 1, 1, 1], vec![1, 0, 0, 1], vec![1, 0, 3, 1], vec![1, 1, 1, 1]],
        vec![vec![3, 1, 1, 1, 1], vec![1, 9, 9, 9, 1], vec![1, 1, 1, 9, 1], vec![0, 0, 1, 2, 1]],
    ]
}

#[test]
fn same_cell_gives_single_cell_path() {
    let (path, cost) = find_path(open_grid(3, 3), (1, 2), (1, 2)).unwrap();
    assert_eq!(path, vec![(1, 2)]);
    assert_eq!(cost, 0);
}

#[test]
fn same_cell_on_every_cell_of_every_fixture() {
    for grid in fixtures() {
        for x in 0..grid.len() {
            for y in 0..grid[0].len() {
                let (path, cost) = find_path(grid.clone(), (x, y), (x, y)).unwrap();
                assert_eq!(path, vec![(x, y)]);
                assert_eq!(cost, 0);
            }
        }
    }
}

#[test]
fn same_cell_on_blocked_cell_is_still_a_path() {
    let grid = vec![vec![1, 1, 1], vec![1, 0, 1], vec![1, 1, 1]];
    let (path, cost) = find_path(grid, (1, 1), (1, 1)).unwrap();
    assert_eq!(path, vec![(1, 1)]);
    assert_eq!(cost, 0);
}

#[test]
fn diagonal_shortcut_across_open_grid() {
    let (path, cost) = find_path(open_grid(3, 3), (0, 0), (2, 2)).unwrap();
    assert_eq!(path.len(), 3);
    assert_eq!(path, vec![(0, 0), (1, 1), (2, 2)]);
    assert_eq!(cost, 2 * DIAGONAL);
    assert_eq!(cost, 28284);
}

#[test]
fn blocked_centre_forces_orthogonal_detour() {
    let grid = vec![vec![1, 1, 1], vec![1, 0, 1], vec![1, 1, 1]];
    let (path, cost) = find_path(grid.clone(), (0, 0), (2, 2)).unwrap();
    assert_eq!(cost, 4 * ORTHOGONAL);
    assert_eq!(cost, 40000);
    assert_eq!(path.len(), 5);
    assert_eq!(path[0], (0, 0));
    assert_eq!(path[4], (2, 2));
    assert!(!path.contains(&(1, 1)));
    for i in 1..path.len() {
        let (a, b) = (path[i - 1], path[i]);
        let moved = a.0.abs_diff(b.0) + a.1.abs_diff(b.1);
        assert_eq!(moved, 1);
    }
    let lower = vec![(0, 0), (1, 0), (2, 0), (2, 1), (2, 2)];
    let upper = vec![(0, 0), (0, 1), (0, 2), (1, 2), (2, 2)];
    assert!(path == lower || path == upper);
}

#[test]
fn single_orthogonal_step() {
    let (path, cost) = find_path(vec![vec![1, 4]], (0, 0), (0, 1)).unwrap();
    assert_eq!(path, vec![(0, 0), (0, 1)]);
    assert_eq!(cost, 40000);
}

#[test]
fn single_diagonal_step_costs_weight_times_diagonal_scale() {
    let grid = vec![vec![1, 1], vec![1, 2]];
    let (path, cost) = find_path(grid, (0, 0), (1, 1)).unwrap();
    assert_eq!(path, vec![(0, 0), (1, 1)]);
    assert_eq!(cost, 28284);
}

#[test]
fn two_orthogonal_steps_beat_a_dear_diagonal() {
    // the diagonal would cost 3 * 14142 = 42426, the two steps 10000 + 30000
    let grid = vec![vec![1, 1], vec![1, 3]];
    let (path, cost) = find_path(grid, (0, 0), (1, 1)).unwrap();
    assert_eq!(path.len(), 3);
    assert_eq!(cost, 40000);
}

#[test]
fn start_weight_is_not_charged() {
    let grid = vec![vec![9, 1]];
    let (path, cost) = find_path(grid, (0, 0), (0, 1)).unwrap();
    assert_eq!(path, vec![(0, 0), (0, 1)]);
    assert_eq!(cost, 10000);
}

#[test]
fn heavy_cells_are_walked_around() {
    // straight through the heavy column costs 50000 + 10000; around it the
    // route is longer but cheaper
    let grid = vec![vec![1, 1, 1], vec![1, 5, 5], vec![1, 1, 1]];
    let (path, cost) = find_path(grid.clone(), (0, 1), (2, 1)).unwrap();
    assert_eq!(cost, recomputed_cost(&grid, &path));
    assert_eq!(path, vec![(0, 1), (1, 0), (2, 1)]);
    assert_eq!(cost, 2 * DIAGONAL);
}

#[test]
fn corner_is_not_cut_when_one_flank_is_blocked() {
    let grid = vec![vec![1, 0], vec![1, 1]];
    let (path, cost) = find_path(grid, (0, 0), (1, 1)).unwrap();
    assert_eq!(path, vec![(0, 0), (1, 0), (1, 1)]);
    assert_eq!(cost, 20000);
}

#[test]
fn goal_of_weight_zero_is_unreachable() {
    let grid = vec![vec![1, 1, 1], vec![1, 1, 1], vec![1, 1, 0]];
    let (path, cost) = find_path(grid, (0, 0), (2, 2)).unwrap();
    assert!(path.is_empty());
    assert_eq!(cost, 0);
}

#[test]
fn goal_inside_ring_of_blocked_cells_is_unreachable() {
    let grid = vec![
        vec![1, 1, 1, 1, 1],
        vec![1, 0, 0, 0, 1],
        vec![1, 0, 1, 0, 1],
        vec![1, 0, 0, 0, 1],
        vec![1, 1, 1, 1, 1],
    ];
    let (path, cost) = find_path(grid.clone(), (0, 0), (2, 2)).unwrap();
    assert!(path.is_empty());
    assert_eq!(cost, 0);
    let (path, cost) = find_path(grid, (2, 2), (4, 4)).unwrap();
    assert!(path.is_empty());
    assert_eq!(cost, 0);
}

#[test]
fn goal_behind_orthogonal_ring_is_unreachable() {
    // the diagonal neighbours of the goal are open, but every way in would
    // cut a corner
    let grid = vec![vec![1, 1, 1], vec![1, 1, 0], vec![1, 0, 1]];
    let (path, cost) = find_path(grid, (0, 0), (2, 2)).unwrap();
    assert!(path.is_empty());
    assert_eq!(cost, 0);
}

#[test]
fn goal_behind_wall_is_unreachable() {
    let grid = vec![vec![1, 1], vec![0, 0], vec![1, 1]];
    let (path, cost) = find_path(grid, (0, 0), (2, 1)).unwrap();
    assert!(path.is_empty());
    assert_eq!(cost, 0);
}

#[test]
fn cost_is_the_sum_of_the_moves_and_is_least() {
    for grid in fixtures() {
        let width = grid.len();
        let height = grid[0].len();
        for sx in 0..width {
            for sy in 0..height {
                let least = exhaustive_costs(&grid, (sx, sy));
                for gx in 0..width {
                    for gy in 0..height {
                        let (path, cost) = find_path(grid.clone(), (sx, sy), (gx, gy)).unwrap();
                        match least[gx][gy] {
                            None => {
                                assert!(path.is_empty());
                                assert_eq!(cost, 0);
                            }
                            Some(expected) => {
                                assert_eq!(path[0], (sx, sy));
                                assert_eq!(path[path.len() - 1], (gx, gy));
                                assert_eq!(cost, recomputed_cost(&grid, &path));
                                assert_eq!(cost, expected);
                            }
                        }
                    }
                }
            }
        }
    }
}

#[test]
fn paths_enter_no_blocked_cell_and_cut_no_corner() {
    for grid in fixtures() {
        let width = grid.len();
        let height = grid[0].len();
        for sx in 0..width {
            for sy in 0..height {
                for gx in 0..width {
                    for gy in 0..height {
                        let (path, _) = find_path(grid.clone(), (sx, sy), (gx, gy)).unwrap();
                        for i in 1..path.len() {
                            let (a, b) = (path[i - 1], path[i]);
                            assert!(grid[b.0][b.1] > 0);
                            if a.0 != b.0 && a.1 != b.1 {
                                assert!(grid[b.0][a.1] > 0);
                                assert!(grid[a.0][b.1] > 0);
                            }
                        }
                    }
                }
            }
        }
    }
}

#[test]
fn paths_visit_no_cell_twice() {
    for grid in fixtures() {
        let width = grid.len();
        let height = grid[0].len();
        for gx in 0..width {
            for gy in 0..height {
                let (path, _) = find_path(grid.clone(), (0, 0), (gx, gy)).unwrap();
                for i in 0..path.len() {
                    for j in 0..i {
                        assert_ne!(path[i], path[j]);
                    }
                }
            }
        }
    }
}

#[test]
fn same_request_gives_same_path() {
    let grid = open_grid(4, 4);
    let first = find_path(grid.clone(), (0, 3), (3, 0)).unwrap();
    let second = find_path(grid, (0, 3), (3, 0)).unwrap();
    assert_eq!(first, second);
}

#[test]
fn grid_without_columns_is_rejected() {
    assert_eq!(find_path(Vec::new(), (0, 0), (0, 0)), Err(PathError::EmptyGrid));
}

#[test]
fn grid_with_empty_columns_is_rejected() {
    assert_eq!(find_path(vec![Vec::new(), Vec::new()], (0, 0), (0, 0)), Err(PathError::EmptyGrid));
}

#[test]
fn ragged_grid_is_rejected() {
    let grid = vec![vec![1, 1], vec![1], vec![1, 1]];
    assert_eq!(find_path(grid, (0, 0), (2, 1)), Err(PathError::RaggedGrid));
    let grid = vec![vec![1, 1], vec![1, 1, 1]];
    assert_eq!(find_path(grid, (0, 0), (0, 0)), Err(PathError::RaggedGrid));
}

#[test]
fn start_outside_grid_is_rejected() {
    assert_eq!(find_path(open_grid(2, 3), (2, 0), (0, 0)), Err(PathError::StartOutOfBounds));
    assert_eq!(find_path(open_grid(2, 3), (0, 3), (0, 0)), Err(PathError::StartOutOfBounds));
    assert_eq!(
        find_path(open_grid(2, 3), (usize::MAX, 0), (0, 0)),
        Err(PathError::StartOutOfBounds)
    );
}

#[test]
fn goal_outside_grid_is_rejected() {
    assert_eq!(find_path(open_grid(2, 3), (0, 0), (2, 0)), Err(PathError::GoalOutOfBounds));
    assert_eq!(find_path(open_grid(2, 3), (0, 0), (1, 3)), Err(PathError::GoalOutOfBounds));
    assert_eq!(
        find_path(open_grid(2, 3), (1, 2), (0, usize::MAX)),
        Err(PathError::GoalOutOfBounds)
    );
}

#[test]
fn start_fault_is_reported_before_goal_fault() {
    assert_eq!(find_path(open_grid(2, 2), (5, 5), (7, 7)), Err(PathError::StartOutOfBounds));
}

#[test]
fn grid_fault_is_reported_before_position_fault() {
    assert_eq!(find_path(Vec::new(), (5, 5), (7, 7)), Err(PathError::EmptyGrid));
    let ragged = vec![vec![1, 1], vec![1]];
    assert_eq!(find_path(ragged, (5, 5), (7, 7)), Err(PathError::RaggedGrid));
}

#[test]
fn heavy_weights_do_not_make_a_grid_ragged_or_empty() {
    let grid = vec![vec![u32::MAX, u32::MAX], vec![1]];
    assert_eq!(find_path(grid, (0, 0), (0, 0)), Err(PathError::RaggedGrid));
}

#[test]
fn same_cell_on_the_heaviest_cells() {
    assert_eq!(find_path(vec![vec![151852]], (0, 0), (0, 0)), Ok((vec![(0, 0)], 0)));
    assert_eq!(find_path(vec![vec![u32::MAX]], (0, 0), (0, 0)), Ok((vec![(0, 0)], 0)));
    let grid = vec![vec![u32::MAX; 3]; 3];
    assert_eq!(find_path(grid, (1, 1), (1, 1)), Ok((vec![(1, 1)], 0)));
}

#[test]
fn one_move_onto_a_heavy_cell() {
    let (path, cost) = find_path(vec![vec![1, 303702]], (0, 0), (0, 1)).unwrap();
    assert_eq!(path, vec![(0, 0), (0, 1)]);
    assert_eq!(cost, 3037020000);
}

#[test]
fn blocked_goal_beside_a_heavy_start() {
    assert_eq!(find_path(vec![vec![303703, 0]], (0, 0), (0, 1)), Ok((Vec::new(), 0)));
    assert_eq!(find_path(vec![vec![u32::MAX, 0]], (0, 0), (0, 1)), Ok((Vec::new(), 0)));
}

#[test]
fn blocked_goal_among_heavy_cells() {
    let grid = vec![vec![u32::MAX, u32::MAX, u32::MAX], vec![u32::MAX, u32::MAX, 0]];
    assert_eq!(find_path(grid, (0, 0), (1, 2)), Ok((Vec::new(), 0)));
}

#[test]
fn one_diagonal_move_on_a_grid_of_many_cells() {
    let grid = vec![vec![1; 1000]; 304];
    let (path, cost) = find_path(grid, (0, 0), (1, 1)).unwrap();
    assert_eq!(path, vec![(0, 0), (1, 1)]);
    assert_eq!(cost, 14142);
}

#[test]
fn largest_orthogonal_move_that_fits() {
    // 429496 * 10000 = 4294960000 fits in u32; 429497 * 10000 does not
    let (path, cost) = find_path(vec![vec![1, 429496]], (0, 0), (0, 1)).unwrap();
    assert_eq!(path, vec![(0, 0), (0, 1)]);
    assert_eq!(cost, 4294960000);
    assert_eq!(find_path(vec![vec![1, 429497]], (0, 0), (0, 1)), Err(PathError::CostOverflow));
}

#[test]
fn largest_diagonal_move_that_fits() {
    // the two orthogonal steps around cost more than the diagonal
    // 303702 * 14142 = 4294953684
    let grid = vec![vec![1, 303702], vec![303702, 303702]];
    let (path, cost) = find_path(grid, (0, 0), (1, 1)).unwrap();
    assert_eq!(path, vec![(0, 0), (1, 1)]);
    assert_eq!(cost, 4294953684);
    let grid = vec![vec![1, 303703], vec![303703, 303703]];
    assert_eq!(find_path(grid, (0, 0), (1, 1)), Err(PathError::CostOverflow));
}

#[test]
fn least_cost_beyond_u32_is_an_overflow() {
    assert_eq!(find_path(vec![vec![1, u32::MAX]], (0, 0), (0, 1)), Err(PathError::CostOverflow));
    // two moves that fit one by one, but not together
    let grid = vec![vec![1, 300000, 300000]];
    assert_eq!(find_path(grid, (0, 0), (0, 2)), Err(PathError::CostOverflow));
}

#[test]
fn overflow_is_decided_by_the_least_cost_alone() {
    // the straight way costs more than u32 holds, the way around does not
    let grid = vec![vec![1, u32::MAX, 1], vec![1, 1, 1]];
    let (path, cost) = find_path(grid, (0, 0), (0, 2)).unwrap();
    assert_eq!(path, vec![(0, 0), (1, 1), (0, 2)]);
    assert_eq!(cost, 28284);
}

#[test]
fn sum_of_many_heavy_moves_fits_exactly() {
    // 42 moves of 100000000 and one of 94960000 make 4294960000
    let mut column = vec![10000u32; 43];
    column.push(9496);
    let (path, cost) = find_path(vec![column], (0, 0), (0, 43)).unwrap();
    assert_eq!(path.len(), 44);
    assert_eq!(cost, 4294960000);
}

#[test]
fn long_corridor() {
    let grid = vec![vec![1; 200]];
    let (path, cost) = find_path(grid, (0, 0), (0, 199)).unwrap();
    assert_eq!(path.len(), 200);
    assert_eq!(cost, 1990000);
    for (i, cell) in path.iter().enumerate() {
        assert_eq!(*cell, (0, i));
    }
}

#[test]
fn large_open_grid() {
    let grid = open_grid(100, 100);
    let (path, cost) = find_path(grid, (0, 0), (99, 99)).unwrap();
    assert_eq!(path.len(), 100);
    assert_eq!(cost, 99 * DIAGONAL);
}
