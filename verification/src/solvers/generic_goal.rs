//! Goals on a grid of cells, with distances in thousandths of the side of a
//! cell.

use crate::path_node::Node;
use crate::world_info::Block;
use vstd::prelude::*;

verus! {

/// `r` is the square root of `n`, rounded down.
pub open spec fn is_root(n: int, r: int) -> bool {
    r >= 0 && r * r <= n < (r + 1) * (r + 1)
}

/// The square root of `n`, rounded down.
pub open spec fn root(n: int) -> int {
    choose|r: int| is_root(n, r)
}

/// A number has one rounded-down square root at most.
pub proof fn lemma_root_unique(n: int, a: int, b: int)
    requires
        is_root(n, a),
        is_root(n, b),
    ensures
        a == b,
{
    if a < b {
        assert((a + 1) * (a + 1) <= b * b) by (nonlinear_arith)
            requires
                0 <= a,
                a + 1 <= b,
        ;
    } else if b < a {
        assert((b + 1) * (b + 1) <= a * a) by (nonlinear_arith)
            requires
                0 <= b,
                b + 1 <= a,
        ;
    }
}

/// The square root of `n`, rounded down.
pub fn integer_sqrt(n: u128) -> (r: u64)
    ensures
        is_root(n as int, r as int),
        r == root(n as int),
{
    let mut low: u128 = 0;
    let mut high: u128 = 0x1_0000_0000_0000_0000;
    assert(high * high > n) by (nonlinear_arith)
        requires
            high == 0x1_0000_0000_0000_0000,
            n <= u128::MAX,
    ;
    while high - low > 1
        invariant
            low < high <= 0x1_0000_0000_0000_0000,
            low * low <= n < high * high,
        decreases high - low,
    {
        let middle: u128 = low + (high - low) / 2;
        assert(middle * middle <= u128::MAX) by (nonlinear_arith)
            requires
                0 <= middle < 0x1_0000_0000_0000_0000,
        ;
        if middle * middle <= n {
            low = middle;
        } else {
            high = middle;
        }
    }
    proof {
        lemma_root_unique(n as int, low as int, root(n as int));
    }
    low as u64
}

/// The square of the straight-line distance between two cells, in millionths
/// of a cell's area.
pub open spec fn squared_distance(a: Block, b: Block) -> int {
    ((a.x - b.x) * (a.x - b.x) + (a.y - b.y) * (a.y - b.y)) * 1_000_000
}

/// A goal on a grid: which cells count as arrived, and how far a cell is
/// guessed to be from them.
pub trait GenericGoal {
    /// Whether `block` counts as arrived.
    open spec fn accepts(&self, block: Block) -> bool {
        arbitrary()
    }

    /// The guess of the cost that remains from `block`, in thousandths of a
    /// step along an axis.
    open spec fn distance(&self, block: Block) -> int {
        arbitrary()
    }

    fn goal_reached(&self, other: Block) -> (arrived: bool)
        ensures
            arrived == self.accepts(other),
    ;

    fn heuristic(&self, other: Block) -> (h: i64)
        ensures
            h == self.distance(other),
    ;
}

/// The goal of arriving at the cell of one node.
pub struct GoalNode(pub Node);

impl GenericGoal for GoalNode {
    /// A cell counts as arrived if it lies where the goal lies.
    open spec fn accepts(&self, block: Block) -> bool {
        self.0.data.x == block.x && self.0.data.y == block.y
    }

    /// The straight-line distance to the goal, rounded down.
    open spec fn distance(&self, block: Block) -> int {
        root(squared_distance(self.0.data, block))
    }

    fn goal_reached(&self, other: Block) -> (arrived: bool) {
        self.0.get_x() == other.x && self.0.get_y() == other.y
    }

    fn heuristic(&self, other: Block) -> (h: i64) {
        let across: i64 = other.x as i64 - self.0.get_x() as i64;
        let along: i64 = other.y as i64 - self.0.get_y() as i64;
        assert(0 <= across * across <= 0x1_0000_0000_0000_0000) by (nonlinear_arith)
            requires
                -0x1_0000_0000 <= across <= 0x1_0000_0000,
        ;
        assert(0 <= along * along <= 0x1_0000_0000_0000_0000) by (nonlinear_arith)
            requires
                -0x1_0000_0000 <= along <= 0x1_0000_0000,
        ;
        let wide_across: i128 = across as i128;
        let wide_along: i128 = along as i128;
        let squares: i128 = wide_across * wide_across + wide_along * wide_along;
        let scaled: u128 = (squares * 1_000_000) as u128;
        assert(scaled == squared_distance(self.0.data, other)) by (nonlinear_arith)
            requires
                scaled == (across * across + along * along) * 1_000_000,
                across == other.x - self.0.data.x,
                along == other.y - self.0.data.y,
        ;
        let r = integer_sqrt(scaled);
        assert(r * r <= 0x2_0000_0000_0000_0000 * 1_000_000);
        assert(r < 0x7fff_ffff_ffff_ffff) by (nonlinear_arith)
            requires
                r * r <= 0x2_0000_0000_0000_0000 * 1_000_000,
                r >= 0,
        ;
        r as i64
    }
}

} // verus!
