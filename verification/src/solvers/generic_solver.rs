//! What every solver on a grid offers.

use super::path_types::PathResult;
use crate::path_node::Node;
use crate::pathfinding::history::{lemma_reverse_push, reversed};
use crate::world_info::{key_place, place_of};
use std::rc::Rc;
use vstd::prelude::*;

verus! {

/// `Rc::clone`: another pointer to the node that `node` points to.
#[verifier::external_body]
fn share(node: &Rc<Node>) -> (shared: Rc<Node>)
    ensures
        shared == *node,
{
    Rc::clone(node)
}

/// The nodes from the one without a predecessor down to `node`.
pub open spec fn ancestry(node: Node) -> Seq<Node>
    decreases node,
{
    match node.parent {
        Some(parent) => ancestry(*parent).push(node),
        None => seq![node],
    }
}

/// A solver that has been given its grid, start and goal.
pub trait PathSolver {
    fn calculate(&mut self) -> PathResult;

    /// The places from the first ancestor of `node` down to `node`.
    fn reconstruct_path(&self, node: Rc<Node>) -> (path: Vec<(i32, i32)>)
        ensures
            path@ == node.trail(),
    {
        let mut back: Vec<(i32, i32)> = Vec::new();
        let mut tmp: &Node = &node;
        loop
            invariant
                node.trail() == tmp.trail() + back@.reverse(),
            decreases tmp.depth(),
        {
            proof {
                lemma_reverse_push(back@, (tmp.data.x, tmp.data.y));
            }
            back.push((tmp.get_x(), tmp.get_y()));
            match &tmp.parent {
                Some(parent) => {
                    assert(node.trail() =~= parent.trail() + back@.reverse());
                    tmp = parent;
                },
                None => {
                    assert(node.trail() =~= back@.reverse());
                    return reversed(&back);
                },
            }
        }
    }

    /// The nodes from the first ancestor of `node` down to `node`.
    fn reconstruct_path1(&self, node: Rc<Node>) -> (path: Vec<Rc<Node>>)
        ensures
            path@.len() == ancestry(*node).len(),
            forall|i: int| 0 <= i < path@.len() ==> *path@[i] == ancestry(*node)[i],
    {
        let mut back: Vec<Rc<Node>> = Vec::new();
        let mut tmp: &Rc<Node> = &node;
        loop
            invariant
                ancestry(*node).len() == ancestry(**tmp).len() + back@.len(),
                forall|i: int|
                    0 <= i < ancestry(**tmp).len() ==> ancestry(*node)[i] == ancestry(**tmp)[i],
                forall|i: int|
                    0 <= i < back@.len() ==> *back@[i] == ancestry(*node)[ancestry(*node).len() - 1
                        - i],
            decreases tmp.depth(),
        {
            back.push(share(tmp));
            match &tmp.parent {
                Some(parent) => {
                    tmp = parent;
                },
                None => {
                    let mut path: Vec<Rc<Node>> = Vec::with_capacity(back.len());
                    let mut left: usize = back.len();
                    while left > 0
                        invariant
                            left <= back@.len(),
                            back@.len() == ancestry(*node).len(),
                            path@.len() == back@.len() - left,
                            forall|i: int|
                                0 <= i < back@.len() ==> *back@[i] == ancestry(*node)[ancestry(
                                    *node,
                                ).len() - 1 - i],
                            forall|i: int| 0 <= i < path@.len() ==> *path@[i] == ancestry(*node)[i],
                        decreases left,
                    {
                        left = left - 1;
                        path.push(share(&back[left]));
                    }
                    return path;
                },
            }
        }
    }
}

/// The places that the keys of a path stand for.
pub open spec fn places(path: Seq<u64>) -> Seq<(i32, i32)> {
    Seq::new(path.len(), |i: int| place_of(path[i]))
}

/// The places that the keys of a path stand for, in the order of the path.
pub fn locate_path(path: &Vec<u64>) -> (coordinates: Vec<(i32, i32)>)
    ensures
        coordinates@ == places(path@),
{
    let mut coordinates: Vec<(i32, i32)> = Vec::with_capacity(path.len());
    let mut at: usize = 0;
    while at < path.len()
        invariant
            at <= path@.len(),
            coordinates@.len() == at,
            forall|i: int| 0 <= i < at ==> coordinates@[i] == place_of(path@[i]),
        decreases path.len() - at,
    {
        coordinates.push(key_place(path[at]));
        at = at + 1;
    }
    assert(coordinates@ =~= places(path@));
    coordinates
}

} // verus!
