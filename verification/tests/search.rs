use astar::pathfinding::astar_fat;
use astar::pathfinding::astar_slaballoc::AStar;
use astar::pathfinding::engine::{Frontier, Limits};
use astar::pathfinding::history::IndexedHistory;
use astar::pathfinding::gen_astar;
use astar::pathfinding::wastar;
use astar::pathfinding::wastar_arena;
use astar::pathfinding::weighting::{Plain, StaticWeight, Weighting};
use astar::pathfinding::{Goal, Movements, PathResult, Pathfinder, PathfinderGen};
use std::cell::RefCell;

#[derive(Hash, PartialEq, Eq, Clone, Copy, Debug)]
struct Pos(i32, i32);

struct Manhattan(Pos);

impl Goal<i32, Pos> for Manhattan {
    fn is_reached(&self, pos: &Pos) -> bool {
        *pos == self.0
    }

    fn heuristic(&self, pos: &Pos) -> i32 {
        ((self.0).0 - pos.0).abs() + ((self.0).1 - pos.1).abs()
    }
}

/// A goal that guesses nothing.
struct Blind(Pos);

impl Goal<i32, Pos> for Blind {
    fn is_reached(&self, pos: &Pos) -> bool {
        *pos == self.0
    }

    fn heuristic(&self, _pos: &Pos) -> i32 {
        0
    }
}

/// A square of `size` by `size` cells with steps along the axes. Entering a
/// cell costs what `toll` says; cells in `walls` cannot be entered.
struct Square {
    size: i32,
    walls: Vec<Pos>,
    toll: fn(Pos) -> i32,
    expanded: RefCell<Vec<Pos>>,
}

fn unit(_pos: Pos) -> i32 {
    1
}

fn bumpy(pos: Pos) -> i32 {
    1 + ((pos.0 * 7 + pos.1 * 13 + pos.0 * pos.1 * 5) % 4)
}

fn square(size: i32, walls: &[Pos], toll: fn(Pos) -> i32) -> Square {
    Square { size, walls: walls.to_vec(), toll, expanded: RefCell::new(Vec::new()) }
}

impl Square {
    fn steps(&self, pos: Pos) -> Vec<(Pos, i32)> {
        let mut steps = Vec::new();
        for (dx, dy) in [(1, 0), (-1, 0), (0, 1), (0, -1)] {
            let next = Pos(pos.0 + dx, pos.1 + dy);
            let inside = 0 <= next.0 && next.0 < self.size && 0 <= next.1 && next.1 < self.size;
            if inside && !self.walls.contains(&next) {
                steps.push((next, (self.toll)(next)));
            }
        }
        steps
    }

    /// The cost of the cheapest way, by trying every order of settling.
    fn cheapest(&self, from: Pos, to: Pos) -> Option<i32> {
        let mut known: Vec<(Pos, i32)> = vec![(from, 0)];
        let mut settled: Vec<Pos> = Vec::new();
        loop {
            let next = known
                .iter()
                .filter(|(pos, _)| !settled.contains(pos))
                .min_by_key(|(_, cost)| *cost)
                .copied();
            let (pos, cost) = next?;
            if pos == to {
                return Some(cost);
            }
            settled.push(pos);
            for (neighbour, step) in self.steps(pos) {
                match known.iter_mut().find(|(seen, _)| *seen == neighbour) {
                    Some(entry) => entry.1 = entry.1.min(cost + step),
                    None => known.push((neighbour, cost + step)),
                }
            }
        }
    }
}

impl Movements<i32, Pos> for Square {
    fn get_neighbors(&self, pos: Pos) -> Vec<(Pos, i32)> {
        self.expanded.borrow_mut().push(pos);
        self.steps(pos)
    }
}

impl Movements<i32, Pos> for &Square {
    fn get_neighbors(&self, pos: Pos) -> Vec<(Pos, i32)> {
        self.expanded.borrow_mut().push(pos);
        self.steps(pos)
    }
}

/// The cost of a path, asking the movements for every step.
fn cost_of(path: &[Pos], movements: &Square) -> i32 {
    let mut total = 0;
    for pair in path.windows(2) {
        let step = movements
            .steps(pair[0])
            .into_iter()
            .find(|(to, _)| *to == pair[1])
            .expect("consecutive positions are joined by an edge");
        total += step.1;
    }
    total
}

fn complete(result: PathResult<Vec<Pos>>) -> Vec<Pos> {
    match result {
        PathResult::Complete(path) => path,
        other => panic!("expected a complete path, got {:?}", other),
    }
}

const MAZE: [Pos; 6] = [Pos(1, 0), Pos(1, 1), Pos(1, 2), Pos(3, 4), Pos(3, 3), Pos(3, 2)];

#[test]
fn open_square_is_crossed_in_eight_steps() {
    let mut engine: AStar<i32, Pos> = AStar::with_refpool_size(64);
    let world = square(5, &[], unit);
    let path = complete(engine.compute(Pos(0, 0), Manhattan(Pos(4, 4)), &world));
    assert_eq!(path.len(), 9);
    assert_eq!(path[0], Pos(0, 0));
    assert_eq!(path[8], Pos(4, 4));
    assert_eq!(cost_of(&path, &world), 8);
}

#[test]
fn start_that_is_the_goal_is_a_path_of_one() {
    let mut engine: AStar<i32, Pos> = AStar::with_refpool_size(0);
    let world = square(5, &[], unit);
    let path = complete(engine.compute(Pos(2, 2), Manhattan(Pos(2, 2)), &world));
    assert_eq!(path, vec![Pos(2, 2)]);
    assert!(world.expanded.borrow().is_empty());
}

#[test]
fn blocked_neighbour_gives_no_path_and_stays_at_the_nearest_position() {
    // The goal lies next to the start behind a wall, and the wall closes the
    // whole column, so nothing beyond the start's side can be reached.
    let walls: Vec<Pos> = (0..3).map(|y| Pos(1, y)).collect();
    let world = square(3, &walls, unit);
    let mut engine: AStar<i32, Pos> = AStar::with_refpool_size(8);
    match engine.compute(Pos(0, 2), Manhattan(Pos(2, 0)), &world) {
        PathResult::NoPath(path) => {
            // Of what can be reached, (0, 0) is nearest to the goal.
            assert_eq!(path, vec![Pos(0, 2), Pos(0, 1), Pos(0, 0)]);
        }
        other => panic!("expected no path, got {:?}", other),
    }
}

#[test]
fn single_blocked_cell_between_start_and_goal_gives_no_path() {
    // A corridor of three cells in which the middle one is blocked.
    let world = Square {
        size: 3,
        walls: vec![Pos(1, 0), Pos(0, 1), Pos(1, 1), Pos(2, 1)],
        toll: unit,
        expanded: RefCell::new(Vec::new()),
    };
    let mut engine: AStar<i32, Pos> = AStar::with_refpool_size(8);
    match engine.compute(Pos(0, 0), Manhattan(Pos(2, 0)), &world) {
        PathResult::NoPath(path) => assert_eq!(path, vec![Pos(0, 0)]),
        other => panic!("expected no path, got {:?}", other),
    }
}

#[test]
fn node_limit_ends_the_search_with_timeout() {
    let mut engine: AStar<i32, Pos> = AStar::with_refpool_size(8);
    engine.set_limits(Limits { cost_bound: 0, node_limit: 3 });
    let world = square(5, &[], unit);
    match engine.compute(Pos(0, 0), Manhattan(Pos(4, 4)), &world) {
        PathResult::Timeout(path) => {
            assert_eq!(path[0], Pos(0, 0));
            assert!(path.len() <= 4);
            cost_of(&path, &world);
        }
        other => panic!("expected a timeout, got {:?}", other),
    }
}

#[test]
fn node_limit_that_suffices_changes_nothing() {
    let world = square(5, &MAZE, unit);
    let mut free: AStar<i32, Pos> = AStar::with_refpool_size(8);
    let expected = complete(free.compute(Pos(0, 0), Manhattan(Pos(4, 4)), &world));
    let mut limited: AStar<i32, Pos> = AStar::with_refpool_size(8);
    limited.set_limits(Limits { cost_bound: 0, node_limit: 25 });
    assert_eq!(complete(limited.compute(Pos(0, 0), Manhattan(Pos(4, 4)), &world)), expected);
}

#[test]
fn limit_of_zero_nodes_still_finds_a_start_that_is_the_goal() {
    let mut engine: AStar<i32, Pos> = AStar::with_refpool_size(8);
    engine.set_limits(Limits { cost_bound: 0, node_limit: 0 });
    let world = square(5, &[], unit);
    assert_eq!(complete(engine.compute(Pos(1, 1), Manhattan(Pos(1, 1)), &world)), vec![Pos(1, 1)]);
    assert!(matches!(
        engine.compute(Pos(1, 1), Manhattan(Pos(1, 2)), &world),
        PathResult::Timeout(_)
    ));
}

#[test]
fn every_store_of_records_gives_the_same_path() {
    let world = square(5, &MAZE, unit);
    let goal = || Manhattan(Pos(4, 4));
    let mut slab: AStar<i32, Pos> = AStar::with_refpool_size(16);
    let expected = complete(slab.compute(Pos(0, 0), goal(), &world));
    assert_eq!(cost_of(&expected, &world), 12);

    let mut pooled: astar_fat::AStar<i32, Pos> = astar_fat::AStar::with_refpool_size(4);
    let mut weighted: wastar::AStar<i32, Pos, Plain> = wastar::AStar::with_refpool_size(4, Plain);
    let mut arena: wastar_arena::AStar<i32, Pos, Plain> =
        wastar_arena::AStar::with_capacity(1024, Plain);
    let mut set_up = gen_astar::AStar::new(4, 0, Pos(0, 0), goal(), &world);
    for _ in 0..3 {
        assert_eq!(complete(pooled.compute(Pos(0, 0), goal(), &world)), expected);
        assert_eq!(complete(weighted.compute(Pos(0, 0), goal(), &world)), expected);
        assert_eq!(complete(arena.compute(Pos(0, 0), goal(), &world)), expected);
        assert_eq!(complete(set_up.compute()), expected);
    }
    set_up.reset();
    assert_eq!(set_up.sizes(), (0, 0, 0));
    assert_eq!(complete(set_up.compute()), expected);
    set_up.set_node_limit(2);
    assert!(matches!(set_up.compute(), PathResult::Timeout(_)));
}

#[test]
fn sizes_tell_what_the_last_search_left() {
    let world = square(3, &[], unit);
    let mut engine: AStar<i32, Pos> = AStar::with_refpool_size(16);
    assert_eq!(engine.sizes(), (0, 0, 0));
    complete(engine.compute(Pos(0, 0), Blind(Pos(2, 2)), &world));
    let (waiting, expanded, queued) = engine.sizes();
    // All cells but the goal were expanded before the goal left the queue.
    assert_eq!(expanded, 8);
    assert_eq!(expanded, world.expanded.borrow().len());
    assert_eq!(waiting, 1);
    assert!(queued <= 9);
}

#[test]
fn arena_without_capacity_grows_as_needed() {
    let world = square(9, &[], bumpy);
    let mut small: wastar_arena::AStar<i32, Pos, Plain> = wastar_arena::AStar::with_capacity(0, Plain);
    let mut huge: wastar_arena::AStar<i32, Pos, Plain> =
        wastar_arena::AStar::with_capacity(usize::MAX, Plain);
    let mut slab: AStar<i32, Pos> = AStar::with_refpool_size(0);
    let expected = complete(slab.compute(Pos(0, 0), Manhattan(Pos(8, 8)), &world));
    assert_eq!(complete(small.compute(Pos(0, 0), Manhattan(Pos(8, 8)), &world)), expected);
    assert_eq!(complete(huge.compute(Pos(0, 0), Manhattan(Pos(8, 8)), &world)), expected);
}

#[test]
fn complete_paths_cost_what_the_cheapest_way_costs() {
    let world = square(6, &[Pos(2, 1), Pos(2, 2), Pos(2, 3), Pos(4, 4), Pos(3, 4)], bumpy);
    let mut engine: AStar<i32, Pos> = AStar::with_refpool_size(16);
    for from in [Pos(0, 0), Pos(5, 0), Pos(1, 4)] {
        for to in [Pos(5, 5), Pos(3, 3), Pos(0, 5), Pos(5, 4)] {
            // The estimate counts steps, and no step costs less than one.
            let path = complete(engine.compute(from, Manhattan(to), &world));
            assert_eq!(path[0], from);
            assert_eq!(*path.last().unwrap(), to);
            assert_eq!(Some(cost_of(&path, &world)), world.cheapest(from, to));
            let blind = complete(engine.compute(from, Blind(to), &world));
            assert_eq!(cost_of(&blind, &world), cost_of(&path, &world));
        }
    }
}

#[test]
fn same_question_gets_the_same_path() {
    let world = square(7, &MAZE, bumpy);
    let mut engine: AStar<i32, Pos> = AStar::with_refpool_size(16);
    let first = complete(engine.compute(Pos(0, 0), Manhattan(Pos(6, 6)), &world));
    for _ in 0..5 {
        assert_eq!(complete(engine.compute(Pos(0, 0), Manhattan(Pos(6, 6)), &world)), first);
    }
}

#[test]
fn used_engine_answers_as_a_new_one() {
    let world = square(7, &MAZE, bumpy);
    let mut used: AStar<i32, Pos> = AStar::with_refpool_size(16);
    let mut used_pooled: astar_fat::AStar<i32, Pos> = astar_fat::AStar::with_refpool_size(3);
    let questions = [
        (Pos(0, 0), Pos(6, 6)),
        (Pos(6, 0), Pos(0, 6)),
        (Pos(2, 2), Pos(2, 2)),
        (Pos(0, 0), Pos(1, 1)),
        (Pos(5, 5), Pos(0, 0)),
    ];
    for (from, to) in questions {
        let mut new: AStar<i32, Pos> = AStar::with_refpool_size(16);
        let expected = format!("{:?}", new.compute(from, Manhattan(to), &world));
        assert_eq!(format!("{:?}", used.compute(from, Manhattan(to), &world)), expected);
        assert_eq!(format!("{:?}", used_pooled.compute(from, Manhattan(to), &world)), expected);
    }
}

#[test]
fn no_position_is_expanded_twice() {
    let world = square(8, &MAZE, bumpy);
    let mut engine: AStar<i32, Pos> = AStar::with_refpool_size(16);
    complete(engine.compute(Pos(0, 0), Blind(Pos(7, 7)), &world));
    let expanded = world.expanded.borrow();
    assert!(expanded.len() > 20);
    for (i, pos) in expanded.iter().enumerate() {
        assert!(!expanded[..i].contains(pos), "{:?} was expanded twice", pos);
    }
}

#[test]
fn consecutive_positions_are_joined_by_edges() {
    let world = square(8, &MAZE, bumpy);
    let mut engine: AStar<i32, Pos> = AStar::with_refpool_size(16);
    engine.set_limits(Limits { cost_bound: 0, node_limit: 30 });
    for result in [
        engine.compute(Pos(0, 0), Manhattan(Pos(2, 0)), &world),
        engine.compute(Pos(0, 0), Manhattan(Pos(7, 7)), &world),
        engine.compute(Pos(0, 0), Manhattan(Pos(1, 1)), &world),
    ] {
        let path = match result {
            PathResult::Complete(path) | PathResult::Timeout(path) | PathResult::NoPath(path) => path,
            PathResult::Partial(_) => panic!("no search hands out a partial path"),
        };
        assert_eq!(path[0], Pos(0, 0));
        // `cost_of` fails where two consecutive positions are not joined.
        cost_of(&path, &world);
    }
}

#[test]
fn bound_below_the_cheapest_way_gives_no_path() {
    let world = square(5, &MAZE, unit);
    let cheapest = world.cheapest(Pos(0, 0), Pos(4, 4)).unwrap();
    assert_eq!(cheapest, 12);
    let mut engine: AStar<i32, Pos> = AStar::with_refpool_size(16);
    engine.set_limits(Limits { cost_bound: cheapest - 1, node_limit: usize::MAX });
    assert!(matches!(
        engine.compute(Pos(0, 0), Manhattan(Pos(4, 4)), &world),
        PathResult::NoPath(_)
    ));
    let mut set_up = gen_astar::AStar::new(4, cheapest - 1, Pos(0, 0), Manhattan(Pos(4, 4)), &world);
    assert!(matches!(set_up.compute(), PathResult::NoPath(_)));
}

#[test]
fn bound_at_or_above_the_cheapest_way_gives_that_way() {
    let world = square(5, &MAZE, unit);
    let mut free: AStar<i32, Pos> = AStar::with_refpool_size(16);
    let expected = complete(free.compute(Pos(0, 0), Manhattan(Pos(4, 4)), &world));
    for bound in [12, 13, 1000, i32::MAX] {
        let mut engine: AStar<i32, Pos> = AStar::with_refpool_size(16);
        engine.set_limits(Limits { cost_bound: bound, node_limit: usize::MAX });
        let path = complete(engine.compute(Pos(0, 0), Manhattan(Pos(4, 4)), &world));
        assert_eq!(cost_of(&path, &world), 12);
        assert_eq!(path, expected);
        let mut set_up = gen_astar::AStar::new(4, bound, Pos(0, 0), Manhattan(Pos(4, 4)), &world);
        assert_eq!(complete(set_up.compute()), expected);
    }
}

#[test]
fn weighted_paths_cost_at_most_the_weight_times_the_cheapest() {
    let walls = [Pos(3, 1), Pos(3, 2), Pos(3, 3), Pos(3, 4), Pos(3, 5), Pos(5, 6), Pos(5, 5)];
    for toll in [unit as fn(Pos) -> i32, bumpy] {
        let world = square(8, &walls, toll);
        for weight in [1u32, 2, 3, 5] {
            let mut engine: wastar::AStar<i32, Pos, StaticWeight> =
                wastar::AStar::with_refpool_size(16, StaticWeight { weight });
            let mut arena: wastar_arena::AStar<i32, Pos, StaticWeight> =
                wastar_arena::AStar::with_capacity(64, StaticWeight { weight });
            for (from, to) in [(Pos(0, 3), Pos(7, 3)), (Pos(0, 0), Pos(7, 7)), (Pos(6, 6), Pos(0, 1))] {
                let cheapest = world.cheapest(from, to).unwrap();
                let path = complete(engine.compute(from, Manhattan(to), &world));
                let cost = cost_of(&path, &world);
                assert!(cheapest <= cost && cost <= weight as i32 * cheapest);
                if weight == 1 {
                    assert_eq!(cost, cheapest);
                }
                assert_eq!(complete(arena.compute(from, Manhattan(to), &world)), path);
            }
        }
    }
}

#[test]
fn heavier_weight_expands_no_more_on_an_open_square() {
    let plain_world = square(12, &[], unit);
    let mut plain: wastar::AStar<i32, Pos, Plain> = wastar::AStar::with_refpool_size(16, Plain);
    complete(plain.compute(Pos(0, 0), Manhattan(Pos(11, 11)), &plain_world));
    let heavy_world = square(12, &[], unit);
    let mut heavy: wastar::AStar<i32, Pos, StaticWeight> =
        wastar::AStar::with_refpool_size(16, StaticWeight { weight: 4 });
    let path = complete(heavy.compute(Pos(0, 0), Manhattan(Pos(11, 11)), &heavy_world));
    assert_eq!(cost_of(&path, &heavy_world), 22);
    assert!(heavy_world.expanded.borrow().len() <= plain_world.expanded.borrow().len());
}

/// A handful of positions joined as the test says.
struct Graph(Vec<(char, char, i32)>);

struct Table(char, Vec<(char, i32)>);

impl Movements<i32, char> for Graph {
    fn get_neighbors(&self, pos: char) -> Vec<(char, i32)> {
        self.0.iter().filter(|(from, _, _)| *from == pos).map(|(_, to, cost)| (*to, *cost)).collect()
    }
}

impl Goal<i32, char> for Table {
    fn is_reached(&self, pos: &char) -> bool {
        *pos == self.0
    }

    fn heuristic(&self, pos: &char) -> i32 {
        self.1.iter().find(|(at, _)| at == pos).map(|(_, guess)| *guess).unwrap_or(0)
    }
}

#[test]
fn duplicate_steps_are_taken_one_by_one() {
    // Two edges from s to a; the cheaper one comes second and wins.
    let graph = Graph(vec![('s', 'a', 5), ('s', 'a', 2), ('s', 'a', 2), ('a', 'g', 1), ('s', 'g', 9)]);
    let mut engine: AStar<i32, char> = AStar::with_refpool_size(4);
    match engine.compute('s', Table('g', vec![]), graph) {
        PathResult::Complete(path) => assert_eq!(path, vec!['s', 'a', 'g']),
        other => panic!("expected a complete path, got {:?}", other),
    }
}

#[test]
fn equal_priorities_are_taken_cheapest_first_then_oldest_first() {
    // Both ways cost 2; a is generated before b and so is expanded first.
    let graph = Graph(vec![('s', 'a', 1), ('s', 'b', 1), ('a', 'g', 1), ('b', 'g', 1)]);
    let mut engine: AStar<i32, char> = AStar::with_refpool_size(4);
    match engine.compute('s', Table('g', vec![]), graph) {
        PathResult::Complete(path) => assert_eq!(path, vec!['s', 'a', 'g']),
        other => panic!("expected a complete path, got {:?}", other),
    }
    // With everything at priority 3, the node of least cost leaves first.
    let graph = Graph(vec![('s', 'a', 2), ('s', 'b', 1), ('a', 'g', 1), ('b', 'g', 2)]);
    let guesses = vec![('s', 3), ('a', 1), ('b', 2)];
    match engine.compute('s', Table('g', guesses), graph) {
        PathResult::Complete(path) => assert_eq!(path, vec!['s', 'b', 'g']),
        other => panic!("expected a complete path, got {:?}", other),
    }
}

#[test]
fn estimate_that_is_not_consistent_can_cost_more() {
    // The cheapest way is s, b, a, g at 12. The guess at b never exceeds what
    // remains from b, yet it drops by 11 along an edge that costs 1, and so
    // a is expanded at cost 3 before b can offer it at cost 2.
    let graph = Graph(vec![('s', 'a', 3), ('s', 'b', 1), ('b', 'a', 1), ('a', 'g', 10)]);
    let guesses = vec![('b', 11)];
    let mut engine: AStar<i32, char> = AStar::with_refpool_size(4);
    match engine.compute('s', Table('g', guesses), graph) {
        PathResult::Complete(path) => assert_eq!(path, vec!['s', 'a', 'g']),
        other => panic!("expected a complete path, got {:?}", other),
    }
}

#[test]
fn costs_that_do_not_fit_are_left_out() {
    // The direct edge cannot be added to anything; the detour can.
    let graph = Graph(vec![('s', 'a', i32::MAX), ('a', 'g', 1), ('s', 'b', 7), ('b', 'g', 7)]);
    let mut engine: AStar<i32, char> = AStar::with_refpool_size(4);
    match engine.compute('s', Table('g', vec![]), graph) {
        PathResult::Complete(path) => assert_eq!(path, vec!['s', 'b', 'g']),
        other => panic!("expected a complete path, got {:?}", other),
    }
}

#[test]
fn best_effort_path_leads_to_the_smallest_estimate_seen() {
    let graph = Graph(vec![('s', 'a', 1), ('s', 'b', 1), ('a', 'c', 1), ('b', 'd', 1)]);
    let guesses = vec![('s', 9), ('a', 7), ('b', 8), ('c', 6), ('d', 2)];
    let mut engine: AStar<i32, char> = AStar::with_refpool_size(4);
    match engine.compute('s', Table('g', guesses), graph) {
        PathResult::NoPath(path) => assert_eq!(path, vec!['s', 'b', 'd']),
        other => panic!("expected no path, got {:?}", other),
    }
}

/// A priority in two branches: cost plus estimate while the cost is smaller
/// than the estimate, and less weight on the cost afterwards. Both branches
/// are taken `W` times, to stay with whole numbers.
struct TwoBranches;

const W: i32 = 2;

impl Weighting<i32> for TwoBranches {
    fn combine(&self, cost: i32, estimate: i32) -> Option<i32> {
        if cost < estimate {
            cost.checked_add(estimate)?.checked_mul(W)
        } else {
            estimate.checked_mul(2 * W - 1)?.checked_add(cost)
        }
    }
}

#[test]
fn priority_of_ones_own_plugs_in() {
    let walls = [Pos(3, 1), Pos(3, 2), Pos(3, 3), Pos(3, 4), Pos(3, 5), Pos(5, 6), Pos(5, 5)];
    let world = square(8, &walls, bumpy);
    let mut engine: wastar::AStar<i32, Pos, TwoBranches> =
        wastar::AStar::with_refpool_size(16, TwoBranches);
    let mut arena: wastar_arena::AStar<i32, Pos, TwoBranches> =
        wastar_arena::AStar::with_capacity(256, TwoBranches);
    for (from, to) in [(Pos(0, 3), Pos(7, 3)), (Pos(0, 0), Pos(7, 7)), (Pos(6, 6), Pos(0, 1))] {
        let cheapest = world.cheapest(from, to).unwrap();
        let path = complete(engine.compute(from, Manhattan(to), &world));
        assert_eq!(path[0], from);
        assert_eq!(*path.last().unwrap(), to);
        let cost = cost_of(&path, &world);
        assert!(cheapest <= cost && cost <= (2 * W - 1) * cheapest);
        assert_eq!(complete(arena.compute(from, Manhattan(to), &world)), path);
    }
}

#[test]
fn no_limits_means_no_bound_and_no_count() {
    let limits: Limits<i32> = Limits::none();
    assert_eq!(limits.cost_bound, 0);
    assert_eq!(limits.node_limit, usize::MAX);
}

#[test]
fn search_taken_turn_by_turn_ends_as_the_search_in_one_go() {
    let world = square(7, &MAZE, bumpy);
    let limits = Limits { cost_bound: 0, node_limit: usize::MAX };
    let goal = Manhattan(Pos(6, 6));
    let mut whole: AStar<i32, Pos> = AStar::with_refpool_size(16);
    let expected = format!("{:?}", whole.compute(Pos(0, 0), Manhattan(Pos(6, 6)), &world));

    let mut frontier: Frontier<i32, Pos> = Frontier::new();
    let mut history = IndexedHistory::with_capacity(4);
    frontier.begin(&mut history, Pos(0, 0), &goal, &world, &Plain, limits);
    assert_eq!(frontier.sizes(), (0, 0, 1));
    let mut turns = 0;
    let result = loop {
        turns += 1;
        if let Some(result) = frontier.turn(&mut history, Pos(0, 0), &goal, &world, &Plain, limits) {
            break result;
        }
    };
    assert_eq!(format!("{:?}", result), expected);
    assert!(turns > 10);
}

#[test]
fn search_given_up_hands_back_the_most_promising_path() {
    let world = square(7, &MAZE, unit);
    let limits = Limits { cost_bound: 0, node_limit: usize::MAX };
    let goal = Manhattan(Pos(6, 6));
    let mut frontier: Frontier<i32, Pos> = Frontier::new();
    let mut history = IndexedHistory::with_capacity(4);
    frontier.begin(&mut history, Pos(0, 0), &goal, &world, &Plain, limits);
    // Given up at once, the search has seen the start alone.
    match frontier.give_up(&history, Pos(0, 0), &goal, &world, &Plain, limits) {
        PathResult::Timeout(path) => assert_eq!(path, vec![Pos(0, 0)]),
        other => panic!("expected a timeout, got {:?}", other),
    }
    // After the start is expanded, its neighbour below is nearer to the goal.
    assert!(frontier.turn(&mut history, Pos(0, 0), &goal, &world, &Plain, limits).is_none());
    match frontier.give_up(&history, Pos(0, 0), &goal, &world, &Plain, limits) {
        PathResult::Timeout(path) => assert_eq!(path, vec![Pos(0, 0), Pos(0, 1)]),
        other => panic!("expected a timeout, got {:?}", other),
    }
    for _ in 0..4 {
        assert!(frontier.turn(&mut history, Pos(0, 0), &goal, &world, &Plain, limits).is_none());
    }
    match frontier.give_up(&history, Pos(0, 0), &goal, &world, &Plain, limits) {
        PathResult::Timeout(path) => {
            assert_eq!(path[0], Pos(0, 0));
            assert!(path.len() > 2);
            cost_of(&path, &world);
        }
        other => panic!("expected a timeout, got {:?}", other),
    }
}

#[test]
fn last_turn_finds_a_goal_that_is_next_in_line() {
    let world = square(7, &MAZE, unit);
    let limits = Limits { cost_bound: 0, node_limit: usize::MAX };
    let mut frontier: Frontier<i32, Pos> = Frontier::new();
    let mut history = IndexedHistory::with_capacity(4);

    // The start is the goal: it is next in line at once.
    let here = Manhattan(Pos(0, 0));
    frontier.begin(&mut history, Pos(0, 0), &here, &world, &Plain, limits);
    match frontier.last_turn(&history, Pos(0, 0), &here, &world, &Plain, limits) {
        PathResult::Complete(path) => assert_eq!(path, vec![Pos(0, 0)]),
        other => panic!("expected a complete path, got {:?}", other),
    }

    // The goal is one step away: after one turn it is next in line.
    let near = Manhattan(Pos(0, 1));
    frontier.begin(&mut history, Pos(0, 0), &near, &world, &Plain, limits);
    assert!(frontier.turn(&mut history, Pos(0, 0), &near, &world, &Plain, limits).is_none());
    match frontier.last_turn(&history, Pos(0, 0), &near, &world, &Plain, limits) {
        PathResult::Complete(path) => assert_eq!(path, vec![Pos(0, 0), Pos(0, 1)]),
        other => panic!("expected a complete path, got {:?}", other),
    }

    // The goal is far: the last turn gives up with the most promising path.
    let far = Manhattan(Pos(6, 6));
    frontier.begin(&mut history, Pos(0, 0), &far, &world, &Plain, limits);
    match frontier.last_turn(&history, Pos(0, 0), &far, &world, &Plain, limits) {
        PathResult::Timeout(path) => assert_eq!(path, vec![Pos(0, 0)]),
        other => panic!("expected a timeout, got {:?}", other),
    }
    frontier.begin(&mut history, Pos(0, 0), &far, &world, &Plain, limits);
    assert!(frontier.turn(&mut history, Pos(0, 0), &far, &world, &Plain, limits).is_none());
    match frontier.last_turn(&history, Pos(0, 0), &far, &world, &Plain, limits) {
        PathResult::Timeout(path) => assert_eq!(path, vec![Pos(0, 0), Pos(0, 1)]),
        other => panic!("expected a timeout, got {:?}", other),
    }
}

#[test]
fn emptied_frontier_begins_as_a_new_one() {
    let world = square(5, &MAZE, bumpy);
    let limits = Limits { cost_bound: 0, node_limit: usize::MAX };
    let goal = Manhattan(Pos(4, 4));
    let mut used: Frontier<i32, Pos> = Frontier::new();
    let mut history = IndexedHistory::with_capacity(4);
    let first = format!("{:?}", used.search(&mut history, Pos(0, 0), &goal, &world, &Plain, limits));
    used.clear();
    assert_eq!(used.sizes(), (0, 0, 0));
    let again = format!("{:?}", used.search(&mut history, Pos(0, 0), &goal, &world, &Plain, limits));
    assert_eq!(first, again);
}

/// Two positions count as arrived; the search stops at the first it takes.
struct Either(Pos, Pos);

impl Goal<i32, Pos> for Either {
    fn is_reached(&self, pos: &Pos) -> bool {
        *pos == self.0 || *pos == self.1
    }

    fn heuristic(&self, _pos: &Pos) -> i32 {
        0
    }
}

#[test]
fn way_to_the_goal_passes_no_other_goal() {
    let world = square(6, &[], unit);
    let mut engine: AStar<i32, Pos> = AStar::with_refpool_size(16);
    let path = complete(engine.compute(Pos(0, 0), Either(Pos(5, 5), Pos(2, 1)), &world));
    assert_eq!(*path.last().unwrap(), Pos(2, 1));
    assert_eq!(path.len(), 4);
    assert!(!path[..3].contains(&Pos(2, 1)) && !path.contains(&Pos(5, 5)));
}
