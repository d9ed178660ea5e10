use astar::cost::{Cost, FixedCost};
use astar::pathfinding::arena::ArenaHistory;
use astar::pathfinding::heap::{leaves_before, MinHeap};
use astar::pathfinding::history::{reversed, History, IndexedHistory};
use astar::pathfinding::pooled::PooledHistory;
use astar::pathfinding::weighting::{Plain, StaticWeight, Weighting};
use astar::pathfinding::{AStarT, Node};

fn node(f: i32, g: i32, seq: usize, pos: u8) -> Node<i32, u8, AStarT<i32>> {
    Node { f, pos, t: AStarT { g, h: f - g, seq, parent: None } }
}

#[test]
fn heap_hands_out_the_smallest_priority_first() {
    let mut heap: MinHeap<i32, u8> = MinHeap::new();
    for (seq, f) in [7, 3, 9, 1, 8, 2, 6, 5, 4, 0].into_iter().enumerate() {
        heap.push(node(f, 0, seq, f as u8));
    }
    assert_eq!(heap.len(), 10);
    for expected in 0..10 {
        assert_eq!(heap.pop().unwrap().f, expected);
    }
    assert!(heap.pop().is_none());
    assert_eq!(heap.len(), 0);
}

#[test]
fn heap_breaks_ties_by_cost_then_by_age() {
    let mut heap: MinHeap<i32, u8> = MinHeap::new();
    heap.push(node(5, 4, 0, 10));
    heap.push(node(5, 2, 1, 11));
    heap.push(node(5, 2, 2, 12));
    heap.push(node(5, 1, 3, 13));
    heap.push(node(4, 4, 4, 14));
    let order: Vec<u8> = (0..5).map(|_| heap.pop().unwrap().pos).collect();
    assert_eq!(order, vec![14, 13, 11, 12, 10]);
}

#[test]
fn heap_is_empty_after_clear() {
    let mut heap: MinHeap<i32, u8> = MinHeap::new();
    heap.push(node(1, 0, 0, 1));
    heap.push(node(2, 0, 1, 2));
    heap.clear();
    assert_eq!(heap.len(), 0);
    assert!(heap.pop().is_none());
}

#[test]
fn order_of_nodes_is_by_priority_cost_and_age() {
    assert!(leaves_before(&node(1, 9, 9, 0), &node(2, 0, 0, 0)));
    assert!(!leaves_before(&node(2, 0, 0, 0), &node(1, 9, 9, 0)));
    assert!(leaves_before(&node(2, 1, 9, 0), &node(2, 2, 0, 0)));
    assert!(leaves_before(&node(2, 2, 3, 0), &node(2, 2, 4, 0)));
    assert!(!leaves_before(&node(2, 2, 4, 0), &node(2, 2, 4, 0)));
}

fn fill<H: History<char>>(history: &mut H) {
    // a <- b <- d, a <- c
    assert_eq!(history.record('a', None), 0);
    assert_eq!(history.record('b', Some(0)), 1);
    assert_eq!(history.record('c', Some(0)), 2);
    assert_eq!(history.record('d', Some(1)), 3);
}

fn check<H: History<char>>(history: &mut H) {
    fill(history);
    assert_eq!(history.path_to(0), vec!['a']);
    assert_eq!(history.path_to(2), vec!['a', 'c']);
    assert_eq!(history.path_to(3), vec!['a', 'b', 'd']);
    history.reset();
    assert_eq!(history.record('x', None), 0);
    assert_eq!(history.record('y', Some(0)), 1);
    assert_eq!(history.path_to(1), vec!['x', 'y']);
}

#[test]
fn indexed_records_read_back_from_the_first_ancestor() {
    check(&mut IndexedHistory::with_capacity(2));
}

#[test]
fn pooled_records_read_back_from_the_first_ancestor() {
    check(&mut PooledHistory::with_pool_size(2));
    check(&mut PooledHistory::with_pool_size(0));
    check(&mut PooledHistory::with_pool_size(usize::MAX));
}

#[test]
fn pooled_records_outgrow_their_pool() {
    let mut history: PooledHistory<usize> = PooledHistory::with_pool_size(4);
    for round in 0..3 {
        history.reset();
        assert_eq!(history.record(round, None), 0);
        for id in 1..100 {
            assert_eq!(history.record(round + id, Some(id - 1)), id);
        }
        let path = history.path_to(99);
        assert_eq!(path.len(), 100);
        assert_eq!(path[0], round);
        assert_eq!(path[99], round + 99);
    }
}

#[test]
fn arena_records_read_back_from_the_first_ancestor() {
    let arena = bumpalo::Bump::new();
    check(&mut ArenaHistory::new(&arena));
}

#[test]
fn reversed_turns_the_order_round() {
    assert_eq!(reversed(&vec![1, 2, 3]), vec![3, 2, 1]);
    assert_eq!(reversed(&Vec::<u8>::new()), Vec::<u8>::new());
}

#[test]
fn integer_costs_add_and_compare() {
    assert_eq!(<i32 as Cost>::zero(), 0);
    assert_eq!(Cost::checked_sum(3i32, 4), Some(7));
    assert_eq!(Cost::checked_sum(i32::MAX, 1), None);
    assert_eq!(Cost::checked_sum(i32::MIN, -1), None);
    assert_eq!(Cost::checked_times(7i32, 3), Some(21));
    assert_eq!(Cost::checked_times(-7i32, 3), Some(-21));
    assert_eq!(Cost::checked_times(1i32, u32::MAX), None);
    assert_eq!(Cost::checked_times(0i32, u32::MAX), Some(0));
    assert!(Cost::less(3i32, 4));
    assert!(!Cost::less(4i32, 4));
    assert_eq!(Cost::checked_sum(i64::MAX, 1i64), None);
    assert_eq!(Cost::checked_times(i64::MAX, 2), None);
    assert_eq!(Cost::checked_times(1i64 << 40, 1 << 20), Some(1i64 << 60));
    assert!(Cost::less(-1i64, 0));
}

#[test]
fn fixed_costs_add_and_compare_by_their_bits() {
    let one = FixedCost::from_bits(1024);
    let half = FixedCost::from_bits(512);
    assert_eq!(FixedCost::zero().to_bits(), 0);
    assert_eq!(one.checked_sum(half).unwrap().to_bits(), 1536);
    assert_eq!(FixedCost::from_bits(3).checked_sum(FixedCost::from_bits(4)).unwrap().to_bits(), 7);
    assert_eq!(FixedCost::from_bits(-3).checked_sum(FixedCost::from_bits(1)).unwrap().to_bits(), -2);
    assert!(FixedCost::from_bits(i32::MAX).checked_sum(FixedCost::from_bits(1)).is_none());
    assert!(FixedCost::from_bits(i32::MIN).checked_sum(FixedCost::from_bits(-1)).is_none());
    assert!(half.less(one));
    assert!(!one.less(half));
    assert!(!one.less(one));
    assert!(FixedCost::from_bits(-1).less(FixedCost::from_bits(0)));
    assert_eq!(half.checked_times(3).unwrap().to_bits(), 1536);
    assert!(FixedCost::from_bits(1 << 30).checked_times(2).is_none());
}

#[test]
fn fixed_costs_agree_with_the_fixed_point_numbers_they_stand_for() {
    let a = fixed::FixedI32::<fixed::types::extra::U10>::from_num(2.5);
    let b = fixed::FixedI32::<fixed::types::extra::U10>::from_num(0.75);
    let sum = FixedCost::from_bits(a.to_bits()).checked_sum(FixedCost::from_bits(b.to_bits()));
    assert_eq!(sum.unwrap().to_bits(), (a + b).to_bits());
    assert_eq!(FixedCost::from_bits(b.to_bits()).less(FixedCost::from_bits(a.to_bits())), b < a);
}

#[test]
fn plain_priority_is_cost_plus_estimate() {
    assert_eq!(Weighting::<i32>::combine(&Plain, 3, 4), Some(7));
    assert_eq!(Weighting::<i32>::combine(&Plain, i32::MAX, 1), None);
}

#[test]
fn static_priority_weighs_the_estimate() {
    let twice = StaticWeight { weight: 2 };
    assert_eq!(Weighting::<i32>::combine(&twice, 3, 4), Some(11));
    assert_eq!(Weighting::<i32>::combine(&twice, 0, 0), Some(0));
    assert_eq!(Weighting::<i32>::combine(&twice, 0, i32::MAX), None);
    assert_eq!(Weighting::<i32>::combine(&twice, i32::MAX, 1), None);
    let once = StaticWeight { weight: 1 };
    assert_eq!(Weighting::<i32>::combine(&once, 3, 4), Some(7));
}
