use astar::constants::{
    ALL_OFFSETS, CARDINAL_POSITIONS, DIAGONAL_POSITIONS, MAX_COST, SQRT_FIXED, UNIT_COST, WALL_COST,
};
use astar::pathfinding::{Goal, Movements};
use astar::solvers::astar::{AStarSolver, CellGoal, CellSteps};
use astar::solvers::generic_goal::{integer_sqrt, GenericGoal, GoalNode};
use astar::path_node::Node;
use astar::solvers::generic_solver::{locate_path, PathSolver};
use std::rc::Rc;
use astar::solvers::path_types::PathResult;
use astar::world_info::{key_place, place_key, Block, Grid};

#[test]
fn gen_astar_testing() {
    let far_x = 2;
    let far_y = 3;
    let raw_grid: Vec<Block> = [
        (-2, -3, 0),
        (-1, -3, 0),
        (0, -3, 1),
        (1, -3, 0),
        (2, -3, 0),
        (-2, -2, 0),
        (-1, -2, 0),
        (0, -2, 1),
        (1, -2, 0),
        (2, -2, 0),
        (-2, -1, 0),
        (-1, -1, 0),
        (0, -1, 1),
        (1, -1, 0),
        (2, -1, 0),
        (-2, 0, 0),
        (-1, 0, 0),
        (0, 0, 0),
        (1, 0, 0),
        (2, 0, 0),
        (-2, 1, 0),
        (-1, 1, 0),
        (0, 1, 1),
        (1, 1, 0),
        (2, 1, 0),
        (-2, 2, 0),
        (-1, 2, 0),
        (0, 2, 1),
        (1, 2, 0),
        (2, 2, 0),
        (-2, 3, 0),
        (-1, 3, 0),
        (0, 3, 1),
        (1, 3, 0),
        (2, 3, 0),
    ]
    .into_iter()
    .map(|val| val.into())
    .collect();

    let grid = Grid::with_unchecked_pos_infos(&raw_grid, far_x, far_y);

    let start_node = Node::zero_cost(-2, -3);
    let goal = GoalNode(Node::zero_cost(2, 3));
    let mut astar = AStarSolver::new(start_node, goal, 1000 * 1000, 10 * 1000, grid);

    let path = astar.calculate();

    println!("{:?}", path);

    // Every cell next to the start is one that cannot be walked on, and a
    // step onto such a cell costs more than the bound allows.
    match path {
        PathResult::NoPathResolution(raw) => assert_eq!(raw, vec![(-2, -3)]),
        other => panic!("expected no path, got {:?}", other),
    }
}

fn open_grid(half: usize, walls: &[(i32, i32)]) -> Grid {
    let mut described = Vec::new();
    let reach = half as i32;
    for y in -reach..=reach {
        for x in -reach..=reach {
            if !walls.contains(&(x, y)) {
                described.push(Block::passable(x, y));
            }
        }
    }
    Grid::with_unchecked_pos_infos(&described, half, half)
}

fn cost_of(path: &[(i32, i32)]) -> i32 {
    path.windows(2)
        .map(|pair| {
            let by = (pair[1].0 - pair[0].0, pair[1].1 - pair[0].1);
            if CARDINAL_POSITIONS.contains(&by) {
                UNIT_COST
            } else {
                assert!(DIAGONAL_POSITIONS.contains(&by));
                SQRT_FIXED
            }
        })
        .sum()
}

#[test]
fn open_grid_is_crossed_corner_to_corner_by_diagonal_steps() {
    let mut solver = AStarSolver::new(
        Node::zero_cost(-2, -2),
        GoalNode(Node::zero_cost(2, 2)),
        0,
        usize::MAX,
        open_grid(2, &[]),
    );
    match solver.calculate() {
        PathResult::Complete(path) => {
            assert_eq!(path, vec![(-2, -2), (-1, -1), (0, 0), (1, 1), (2, 2)]);
            assert_eq!(cost_of(&path), 4 * 1414);
        }
        other => panic!("expected a complete path, got {:?}", other),
    }
    // Asked again, the solver answers the same.
    assert!(matches!(solver.calculate(), PathResult::Complete(path) if path.len() == 5));
}

#[test]
fn walls_are_walked_around_while_the_bound_allows() {
    let walls = [(0, -1), (0, 0), (0, 1)];
    let mut solver = AStarSolver::new(
        Node::zero_cost(-1, 0),
        GoalNode(Node::zero_cost(1, 0)),
        WALL_COST - 1,
        usize::MAX,
        open_grid(2, &walls),
    );
    match solver.calculate() {
        PathResult::Complete(path) => {
            assert_eq!(path[0], (-1, 0));
            assert_eq!(*path.last().unwrap(), (1, 0));
            for wall in walls {
                assert!(!path.contains(&wall));
            }
            assert_eq!(cost_of(&path), 2 * 1414 + 2 * 1000);
        }
        other => panic!("expected a complete path, got {:?}", other),
    }
}

#[test]
fn walls_are_walked_through_at_their_price_without_a_bound() {
    // A wall across the whole grid: the only way is through it.
    let walls: Vec<(i32, i32)> = (-1..=1).map(|y| (0, y)).collect();
    let mut solver = AStarSolver::new(
        Node::zero_cost(-1, 0),
        GoalNode(Node::zero_cost(1, 0)),
        0,
        usize::MAX,
        open_grid(1, &walls),
    );
    match solver.calculate() {
        PathResult::Complete(path) => assert_eq!(path, vec![(-1, 0), (0, 0), (1, 0)]),
        other => panic!("expected a complete path, got {:?}", other),
    }
    let mut bounded = AStarSolver::new(
        Node::zero_cost(-1, 0),
        GoalNode(Node::zero_cost(1, 0)),
        5000,
        usize::MAX,
        open_grid(1, &walls),
    );
    match bounded.calculate() {
        PathResult::NoPathResolution(path) => {
            assert_eq!(path[0], (-1, 0));
            assert!(path.iter().all(|place| place.0 == -1));
        }
        other => panic!("expected no path, got {:?}", other),
    }
}

#[test]
fn start_far_from_the_grid_gives_the_start_alone() {
    let mut solver = AStarSolver::new(
        Node::zero_cost(9, 9),
        GoalNode(Node::zero_cost(0, 0)),
        0,
        usize::MAX,
        open_grid(1, &[]),
    );
    match solver.calculate() {
        PathResult::NoPathResolution(path) => assert_eq!(path, vec![(9, 9)]),
        other => panic!("expected no path, got {:?}", other),
    }
}

#[test]
fn start_one_column_right_of_the_grid_begins_the_path() {
    // A grid of five by seven cells of which none was described.
    let grid = Grid::with_unchecked_pos_infos(&[], 2, 3);
    let mut solver = AStarSolver::new(
        Node::zero_cost(3, 0),
        GoalNode(Node::zero_cost(-2, 1)),
        0,
        usize::MAX,
        grid,
    );
    match solver.calculate() {
        PathResult::Complete(path) => {
            assert_eq!(path.len(), 3);
            assert_eq!(path[0], (3, 0));
            assert!(path[1] == (-2, 2) || path[1] == (-2, 0));
            assert_eq!(path[2], (-2, 1));
        }
        other => panic!("expected a complete path, got {:?}", other),
    }
    // With a bound that no wall fits under, nothing can be entered.
    let grid = Grid::with_unchecked_pos_infos(&[], 2, 3);
    let mut bounded = AStarSolver::new(
        Node::zero_cost(3, 0),
        GoalNode(Node::zero_cost(-2, 1)),
        1000 * 1000,
        usize::MAX,
        grid,
    );
    match bounded.calculate() {
        PathResult::NoPathResolution(path) => assert_eq!(path, vec![(3, 0)]),
        other => panic!("expected no path, got {:?}", other),
    }
}

#[test]
fn start_just_left_of_the_grid_walks_onto_it() {
    let mut solver = AStarSolver::new(
        Node::zero_cost(-3, 0),
        GoalNode(Node::zero_cost(0, 0)),
        0,
        usize::MAX,
        open_grid(2, &[]),
    );
    match solver.calculate() {
        PathResult::Complete(path) => {
            assert_eq!(path, vec![(-3, 0), (-2, 0), (-1, 0), (0, 0)]);
        }
        other => panic!("expected a complete path, got {:?}", other),
    }
    let mut above = AStarSolver::new(
        Node::zero_cost(0, -3),
        GoalNode(Node::zero_cost(1, -1)),
        0,
        usize::MAX,
        open_grid(2, &[]),
    );
    match above.calculate() {
        PathResult::Complete(path) => assert_eq!(path, vec![(0, -3), (0, -2), (1, -1)]),
        other => panic!("expected a complete path, got {:?}", other),
    }
}

#[test]
fn start_that_is_the_goal_is_found_off_the_grid_too() {
    let mut solver = AStarSolver::new(
        Node::zero_cost(40, 40),
        GoalNode(Node::zero_cost(40, 40)),
        0,
        usize::MAX,
        open_grid(1, &[]),
    );
    match solver.calculate() {
        PathResult::Complete(path) => assert_eq!(path, vec![(40, 40)]),
        other => panic!("expected a complete path, got {:?}", other),
    }
}

#[test]
fn cells_that_lie_elsewhere_than_their_place_give_their_own_coordinates() {
    // Three cells in a row of which the middle one says it lies at (7, 7).
    let cells = vec![Block::passable(-1, 0), Block::passable(7, 7), Block::passable(1, 0)];
    let grid = Grid::with_full_pos_infos(&cells, 3, 1);
    let mut solver = AStarSolver::new(
        Node::zero_cost(-1, 0),
        GoalNode(Node::zero_cost(7, 7)),
        0,
        usize::MAX,
        grid,
    );
    match solver.calculate() {
        PathResult::Complete(path) => assert_eq!(path, vec![(-1, 0), (7, 7)]),
        other => panic!("expected a complete path, got {:?}", other),
    }
}

#[test]
fn node_limit_ends_the_grid_search_with_timeout() {
    let mut solver = AStarSolver::new(
        Node::zero_cost(-3, -3),
        GoalNode(Node::zero_cost(3, 3)),
        0,
        4,
        open_grid(3, &[]),
    );
    assert!(matches!(solver.calculate(), PathResult::Timeout(path) if path[0] == (-3, -3)));
}

#[test]
fn steps_out_of_a_place_are_looked_up_in_the_grid() {
    let grid = open_grid(1, &[(0, 1)]);
    let steps = CellSteps { grid: &grid };
    let to = |x: i32, y: i32, cost: i64| (place_key(x, y), cost);
    // From the centre every step leads to a cell.
    assert_eq!(
        steps.get_neighbors(place_key(0, 0)),
        vec![
            to(1, 0, 1000),
            to(-1, 0, 1000),
            to(0, 1, WALL_COST),
            to(0, -1, 1000),
            to(1, 1, 1414),
            to(-1, -1, 1414),
            to(1, -1, 1414),
            to(-1, 1, 1414)
        ]
    );
    // From the top left corner the steps up and to the left find nothing.
    assert_eq!(
        steps.get_neighbors(place_key(-1, -1)),
        vec![to(0, -1, 1000), to(-1, 0, 1000), to(0, 0, 1414)]
    );
    // A lookup one column beyond the right edge finds the first cell of the
    // next row, and the step leads to where that cell lies.
    assert!(steps.get_neighbors(place_key(1, 0)).contains(&to(-1, 1, 1000)));
    // From a place left of the grid the steps to the right find cells.
    assert_eq!(
        steps.get_neighbors(place_key(-2, 0)),
        vec![to(-1, 0, 1000), to(-1, 1, 1414), to(-1, -1, 1414)]
    );
    // Far from the grid no step leads anywhere.
    assert!(steps.get_neighbors(place_key(9, 9)).is_empty());
    assert!(steps.get_neighbors(place_key(i32::MAX, i32::MIN)).is_empty());
}

#[test]
fn goal_on_places_reads_the_cell_of_a_place() {
    let grid = open_grid(2, &[]);
    let target = GoalNode(Node::zero_cost(1, 2));
    let goal = CellGoal { goal: &target, grid: &grid };
    assert!(goal.is_reached(&place_key(1, 2)));
    assert!(!goal.is_reached(&place_key(-2, -2)));
    assert!(!goal.is_reached(&place_key(100, 100)));
    assert_eq!(goal.heuristic(&place_key(1, 2)), 0);
    // From (-2, -2) the goal is 3 across and 4 along.
    assert_eq!(goal.heuristic(&place_key(-2, -2)), 5000);
    // Off the grid the distance is measured all the same.
    assert_eq!(goal.heuristic(&place_key(1, 102)), 100_000);
}

#[test]
fn places_and_their_keys_go_back_and_forth() {
    for place in [(0, 0), (-1, 1), (3, -4), (i32::MIN, i32::MIN), (i32::MAX, i32::MAX), (i32::MIN, i32::MAX)] {
        assert_eq!(key_place(place_key(place.0, place.1)), place);
    }
    assert_eq!(place_key(i32::MIN, i32::MIN), 0);
    assert_eq!(place_key(i32::MIN, i32::MIN + 5), 5);
    assert_eq!(place_key(i32::MIN + 1, i32::MIN), 1 << 32);
    assert_eq!(place_key(i32::MAX, i32::MAX), u64::MAX);
    assert_eq!(key_place(u64::MAX), (i32::MAX, i32::MAX));
}

#[test]
fn distance_to_the_goal_is_the_straight_line_in_thousandths() {
    let goal = GoalNode(Node::zero_cost(0, 0));
    assert!(goal.goal_reached(Block::impassable(0, 0)));
    assert!(!goal.goal_reached(Block::passable(0, 1)));
    assert_eq!(goal.heuristic(Block::passable(0, 0)), 0);
    assert_eq!(goal.heuristic(Block::passable(3, 4)), 5000);
    assert_eq!(goal.heuristic(Block::passable(-3, -4)), 5000);
    assert_eq!(goal.heuristic(Block::passable(1, 1)), 1414);
    assert_eq!(goal.heuristic(Block::passable(1, 0)), 1000);
    assert_eq!(goal.heuristic(Block::passable(2, 1)), 2236);
    let far = GoalNode(Node::zero_cost(i32::MIN, i32::MIN));
    // 2^32 - 1 across and along: 1000 * sqrt(2) * (2^32 - 1), rounded down.
    assert_eq!(far.heuristic(Block::passable(i32::MAX, i32::MAX)), 6074000998537);
}

#[test]
fn integer_roots_are_rounded_down() {
    assert_eq!(integer_sqrt(0), 0);
    assert_eq!(integer_sqrt(1), 1);
    assert_eq!(integer_sqrt(3), 1);
    assert_eq!(integer_sqrt(4), 2);
    assert_eq!(integer_sqrt(15), 3);
    assert_eq!(integer_sqrt(16), 4);
    assert_eq!(integer_sqrt(2_000_000), 1414);
    assert_eq!(integer_sqrt(1 << 100), 1 << 50);
    assert_eq!(integer_sqrt((1 << 100) - 1), (1 << 50) - 1);
    assert_eq!(integer_sqrt(u128::MAX), u64::MAX);
}

#[test]
fn places_of_a_path_follow_its_keys() {
    let keys = vec![place_key(-1, -1), place_key(0, 0), place_key(1, 1)];
    assert_eq!(locate_path(&keys), vec![(-1, -1), (0, 0), (1, 1)]);
    assert_eq!(locate_path(&vec![]), vec![]);
}

#[test]
fn all_offsets_are_listed_as_they_stand() {
    assert_eq!(
        ALL_OFFSETS,
        [(1, 0), (-1, 0), (1, 0), (-1, 0), (1, 1), (-1, -1), (1, -1), (-1, 1)]
    );
    assert_eq!(MAX_COST, 10_000_000);
    // No way around on cells that can be walked on undercuts a wall.
    assert!(WALL_COST > SQRT_FIXED as i64 * (1i64 << 32));
}

#[test]
fn nodes_turn_into_their_cells() {
    let node = Node::with_costs_and_data(Block::impassable(4, 5), 1, 2, None);
    let by_reference: Block = (&node).into();
    assert_eq!((by_reference.x, by_reference.y, by_reference.passable), (4, 5, false));
    let by_value: Block = node.into();
    assert_eq!((by_value.x, by_value.y, by_value.passable), (4, 5, false));
}

#[test]
fn nodes_are_made_as_named() {
    let start = Node::zero_cost(3, -4);
    assert_eq!((start.get_x(), start.get_y()), (3, -4));
    assert!(start.data.passable);
    assert_eq!((start.g, start.h, start.f), (0, 0, 0));
    assert!(start.parent.is_none());

    let wall = Node::max_cost(1, 2);
    assert_eq!((wall.get_x(), wall.get_y(), wall.data.passable), (1, 2, false));
    assert_eq!((wall.g, wall.h, wall.f), (i64::MAX, i64::MAX, i64::MAX));

    let unknown = Node::default_max_cost();
    assert_eq!((unknown.get_x(), unknown.get_y(), unknown.data.passable), (0, 0, false));
    assert_eq!(unknown.f, i64::MAX);

    let mut node = Node::with_costs_and_data(Block::passable(5, 6), 1000, 414, None);
    assert_eq!((node.g, node.h, node.f), (1000, 414, 1414));
    node.set_costs(7, 8);
    assert_eq!((node.g, node.h, node.f), (7, 8, 15));
    node.set_costs(i64::MAX, 1);
    assert_eq!(node.f, i64::MAX);
    node.set_costs(i64::MIN, -1);
    assert_eq!(node.f, i64::MIN);
    node.zero_costs();
    assert_eq!((node.g, node.h, node.f), (0, 0, 0));
    assert_eq!((node.get_x(), node.get_y()), (5, 6));
}

#[test]
fn linked_nodes_read_back_from_the_first_ancestor() {
    let first = Rc::new(Node::zero_cost(0, 0));
    let second = Rc::new(Node::with_costs_and_data(Block::passable(1, 0), 1000, 0, Some(first.clone())));
    let third = Rc::new(Node::with_costs_and_data(Block::passable(2, 1), 2414, 0, Some(second.clone())));
    let solver = AStarSolver::new(
        Node::zero_cost(0, 0),
        GoalNode(Node::zero_cost(0, 0)),
        0,
        0,
        open_grid(1, &[]),
    );
    assert_eq!(solver.reconstruct_path(third.clone()), vec![(0, 0), (1, 0), (2, 1)]);
    assert_eq!(solver.reconstruct_path(first.clone()), vec![(0, 0)]);
    let nodes = solver.reconstruct_path1(third.clone());
    assert_eq!(nodes.len(), 3);
    assert!(Rc::ptr_eq(&nodes[0], &first));
    assert!(Rc::ptr_eq(&nodes[1], &second));
    assert!(Rc::ptr_eq(&nodes[2], &third));
    assert_eq!(solver.reconstruct_path1(first.clone()).len(), 1);
}

#[test]
fn nodes_are_made_of_tuples() {
    let full = Node::from((1, 2, 30, 4));
    assert_eq!((full.get_x(), full.get_y(), full.g, full.h, full.f), (1, 2, 30, 4, 34));
    assert!(full.data.passable && full.parent.is_none());
    let wide = Node::from((0, 0, i32::MAX, i32::MAX));
    assert_eq!(wide.f, 2 * i32::MAX as i64);
    let keyed = Node::from((1, 2, 30));
    assert_eq!((keyed.get_x(), keyed.get_y(), keyed.g, keyed.h, keyed.f), (1, 2, 0, 0, 30));
    let bare = Node::from((-1, -2));
    assert_eq!((bare.get_x(), bare.get_y(), bare.g, bare.h, bare.f), (-1, -2, 0, 0, 0));
}
