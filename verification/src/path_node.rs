//! Nodes that carry the cell they stand for, their costs in thousandths of
//! a step, and the node they were reached from.

use crate::world_info::Block;
use std::rc::Rc;
use vstd::prelude::*;

verus! {

/// The sum of two costs, held to the ends of the range where it would leave
/// it.
pub open spec fn capped_sum(g: i64, h: i64) -> i64 {
    if g + h > i64::MAX {
        i64::MAX
    } else if g + h < i64::MIN {
        i64::MIN
    } else {
        (g + h) as i64
    }
}

/// A node of a search over cells.
#[derive(Debug, Clone)]
pub struct Node {
    pub data: Block,
    /// The cost of the way from the start.
    pub g: i64,
    /// The guess of the cost that remains.
    pub h: i64,
    /// The two together.
    pub f: i64,
    pub parent: Option<Rc<Node>>,
}

impl Node {
    /// The node of the origin with the largest costs there are, for a place
    /// of which nothing is known.
    pub fn default_max_cost() -> (node: Self)
        ensures
            node == Self::spec_max_cost(0, 0),
    {
        Self {
            data: Block::impassable(0, 0),
            g: i64::MAX,
            h: i64::MAX,
            f: i64::MAX,
            parent: None,
        }
    }

    /// The node of a cell that can be walked on, with no costs and no
    /// predecessor.
    pub fn zero_cost(x: i32, y: i32) -> (node: Self)
        ensures
            node == (Node {
                data: Block { x, y, passable: true, terrain_speed: 1 },
                g: 0,
                h: 0,
                f: 0,
                parent: None,
            }),
    {
        Self { data: Block::passable(x, y), g: 0, h: 0, f: 0, parent: None }
    }

    /// The node of a cell that cannot be walked on, with the largest costs
    /// there are and no predecessor.
    pub fn max_cost(x: i32, y: i32) -> (node: Self)
        ensures
            node == Self::spec_max_cost(x, y),
    {
        Self {
            data: Block::impassable(x, y),
            g: i64::MAX,
            h: i64::MAX,
            f: i64::MAX,
            parent: None,
        }
    }

    /// What `max_cost` makes.
    pub open spec fn spec_max_cost(x: i32, y: i32) -> Node {
        Node {
            data: Block::spec_impassable(x as int, y as int),
            g: i64::MAX,
            h: i64::MAX,
            f: i64::MAX,
            parent: None,
        }
    }

    /// The node of `data` with these costs, reached from `parent`.
    pub fn with_costs_and_data(data: Block, g: i64, h: i64, parent: Option<Rc<Node>>) -> (node:
        Self)
        ensures
            node == (Node { data, g, h, f: capped_sum(g, h), parent }),
    {
        Self { data, g, h, f: sum(g, h), parent }
    }

    #[inline]
    pub fn zero_costs(&mut self)
        ensures
            *final(self) == (Node { g: 0, h: 0, f: 0, ..*old(self) }),
    {
        self.g = 0;
        self.h = 0;
        self.f = 0;
    }

    #[inline]
    pub fn set_costs(&mut self, g: i64, h: i64)
        ensures
            *final(self) == (Node { g, h, f: capped_sum(g, h), ..*old(self) }),
    {
        self.g = g;
        self.h = h;
        self.f = sum(g, h);
    }

    #[inline]
    pub fn get_x(&self) -> (x: i32)
        ensures
            x == self.data.x,
    {
        self.data.x
    }

    #[inline]
    pub fn get_y(&self) -> (y: i32)
        ensures
            y == self.data.y,
    {
        self.data.y
    }

    /// How many nodes lie between this node and the one without a
    /// predecessor.
    pub open spec fn depth(self) -> nat
        decreases self,
    {
        match self.parent {
            Some(parent) => 1 + parent.depth(),
            None => 0,
        }
    }

    /// The places from the node without a predecessor down to this node.
    pub open spec fn trail(self) -> Seq<(i32, i32)>
        decreases self,
    {
        match self.parent {
            Some(parent) => parent.trail().push((self.data.x, self.data.y)),
            None => seq![(self.data.x, self.data.y)],
        }
    }
}

impl From<Node> for Block {
    /// The cell that the node stands for.
    fn from(node: Node) -> (block: Self) {
        node.data
    }
}

impl vstd::std_specs::convert::FromSpecImpl<Node> for Block {
    open spec fn obeys_from_spec() -> bool {
        true
    }

    open spec fn from_spec(node: Node) -> Self {
        node.data
    }
}

impl From<&Node> for Block {
    /// The cell that the node stands for.
    fn from(node: &Node) -> (block: Self) {
        node.data
    }
}

impl vstd::std_specs::convert::FromSpecImpl<&Node> for Block {
    open spec fn obeys_from_spec() -> bool {
        true
    }

    open spec fn from_spec(node: &Node) -> Self {
        node.data
    }
}

impl From<(i32, i32, i32, i32)> for Node {
    /// The node of the cell at the first two numbers, with the third as the
    /// cost from the start and the fourth as the guess of what remains.
    fn from(val: (i32, i32, i32, i32)) -> (node: Self) {
        Self {
            data: Block::passable(val.0, val.1),
            g: val.2 as i64,
            h: val.3 as i64,
            f: val.2 as i64 + val.3 as i64,
            parent: None,
        }
    }
}

impl vstd::std_specs::convert::FromSpecImpl<(i32, i32, i32, i32)> for Node {
    open spec fn obeys_from_spec() -> bool {
        true
    }

    open spec fn from_spec(val: (i32, i32, i32, i32)) -> Self {
        Node {
            data: Block { x: val.0, y: val.1, passable: true, terrain_speed: 1 },
            g: val.2 as i64,
            h: val.3 as i64,
            f: (val.2 + val.3) as i64,
            parent: None,
        }
    }
}

impl From<(i32, i32, i32)> for Node {
    /// The node of the cell at the first two numbers, with the third as the
    /// two costs together.
    fn from(val: (i32, i32, i32)) -> (node: Self) {
        Self { data: Block::passable(val.0, val.1), g: 0, h: 0, f: val.2 as i64, parent: None }
    }
}

impl vstd::std_specs::convert::FromSpecImpl<(i32, i32, i32)> for Node {
    open spec fn obeys_from_spec() -> bool {
        true
    }

    open spec fn from_spec(val: (i32, i32, i32)) -> Self {
        Node {
            data: Block { x: val.0, y: val.1, passable: true, terrain_speed: 1 },
            g: 0,
            h: 0,
            f: val.2 as i64,
            parent: None,
        }
    }
}

impl From<(i32, i32)> for Node {
    /// The node of the cell at the two numbers, with no costs.
    fn from(val: (i32, i32)) -> (node: Self) {
        Self { data: Block::passable(val.0, val.1), g: 0, h: 0, f: 0, parent: None }
    }
}

impl vstd::std_specs::convert::FromSpecImpl<(i32, i32)> for Node {
    open spec fn obeys_from_spec() -> bool {
        true
    }

    open spec fn from_spec(val: (i32, i32)) -> Self {
        Node {
            data: Block { x: val.0, y: val.1, passable: true, terrain_speed: 1 },
            g: 0,
            h: 0,
            f: 0,
            parent: None,
        }
    }
}

/// The sum of two costs, held to the ends of the range.
fn sum(g: i64, h: i64) -> (f: i64)
    ensures
        f == capped_sum(g, h),
{
    match g.checked_add(h) {
        Some(f) => f,
        None => if g > 0 {
            i64::MAX
        } else {
            i64::MIN
        },
    }
}

} // verus!
