//! The search as mathematics: what the frontier holds, in which order its
//! nodes are taken, and what one step does to it.
//!
//! The executable search is proved to compute exactly `search`, so whatever is
//! shown of `search` here holds of every run.

use super::history::{chain, Record};
use super::weighting::Weighting;
use super::{Goal, Movements, PathResult};
use crate::cost::Cost;
use vstd::multiset::Multiset;
use vstd::prelude::*;

verus! {

/// A node that waits in the frontier.
pub struct Candidate<Pos> {
    /// The key by which the frontier is ordered.
    pub priority: int,
    /// The cost of the way by which the node was reached.
    pub cost: int,
    /// How many nodes had been generated when this one was.
    pub seq: nat,
    pub pos: Pos,
    /// The guess of the cost that remains from here.
    pub estimate: int,
    /// The record of the position that the node was reached from.
    pub parent: Option<nat>,
}

/// The order in which nodes leave the frontier: by priority; among equal
/// priorities the smaller cost first; among those the node generated earlier.
pub open spec fn before<Pos>(a: Candidate<Pos>, b: Candidate<Pos>) -> bool {
    a.priority < b.priority || (a.priority == b.priority && (a.cost < b.cost || (a.cost == b.cost
        && a.seq < b.seq)))
}

/// `node` is in `queue` and nothing in `queue` leaves before it.
pub open spec fn is_first<Pos>(queue: Multiset<Candidate<Pos>>, node: Candidate<Pos>) -> bool {
    &&& queue.count(node) > 0
    &&& forall|other: Candidate<Pos>| queue.count(other) > 0 ==> !before(other, node)
}

/// The node that leaves `queue` next.
pub open spec fn first<Pos>(queue: Multiset<Candidate<Pos>>) -> Candidate<Pos> {
    choose|node: Candidate<Pos>| is_first(queue, node)
}

/// What a search is asked to do.
pub struct Task<F, Pos, G, M, W> {
    pub start: Pos,
    pub goal: G,
    pub movements: M,
    /// How cost and estimate combine into a priority.
    pub policy: W,
    /// Nodes whose cost and estimate add up to more are dropped; zero
    /// switches the bound off.
    pub bound: F,
    /// How many nodes may be generated besides the start.
    pub limit: nat,
}

/// Everything that a search has found out so far.
#[verifier::reject_recursive_types(Pos)]
pub struct SearchState<Pos> {
    /// The smallest cost at which each position waits in the frontier.
    pub open: Map<Pos, int>,
    /// The positions that have been expanded.
    pub closed: Set<Pos>,
    /// The nodes that wait, stale ones included.
    pub queue: Multiset<Candidate<Pos>>,
    /// One record for each expansion, in order.
    pub history: Seq<Record<Pos>>,
    /// The cost at which each record's position was expanded.
    pub costs: Seq<int>,
    /// The node with the smallest estimate seen so far.
    pub best: Candidate<Pos>,
    /// How many nodes have been generated besides the start.
    pub pushed: nat,
}

/// What relaxing edges led to.
#[verifier::reject_recursive_types(Pos)]
pub enum Relaxed<Pos> {
    /// All edges were looked at.
    Next(SearchState<Pos>),
    /// A node had to be generated and the limit did not allow it.
    OutOfBudget(SearchState<Pos>),
}

/// What one turn of the main loop led to.
#[verifier::reject_recursive_types(Pos)]
pub enum Step<Pos> {
    Continue(SearchState<Pos>),
    Done(Outcome<Pos>),
}

/// How a search ended and what it had found out by then.
#[verifier::reject_recursive_types(Pos)]
pub struct Outcome<Pos> {
    pub result: PathResult<Seq<Pos>>,
    /// The node that the path of the result leads to.
    pub arrived: Candidate<Pos>,
    pub last: SearchState<Pos>,
}

/// The positions from the start to `node`.
pub open spec fn route<Pos>(history: Seq<Record<Pos>>, node: Candidate<Pos>) -> Seq<Pos> {
    match node.parent {
        Some(p) => chain(history, p).push(node.pos),
        None => seq![node.pos],
    }
}

/// Whether a node with this cost and estimate may enter the frontier: its
/// cost and the sum of cost and estimate have values of the cost type, the
/// sum is within the bound if there is one, and the policy has a key for it.
pub open spec fn admits<F: Cost, Pos, G: Goal<F, Pos>, M: Movements<F, Pos>, W: Weighting<F>>(
    task: Task<F, Pos, G, M, W>,
    cost: int,
    estimate: int,
) -> bool {
    &&& F::representable(cost)
    &&& F::representable(cost + estimate)
    &&& task.bound.value() != 0 ==> cost + estimate <= task.bound.value()
    &&& task.policy.keyed(cost, estimate)
}

/// The node that stands for arriving at `pos` over an edge of cost `step`
/// from the record `parent`, expanded at cost `parent_cost`.
pub open spec fn successor<F: Cost, Pos, G: Goal<F, Pos>, M: Movements<F, Pos>, W: Weighting<F>>(
    task: Task<F, Pos, G, M, W>,
    state: SearchState<Pos>,
    parent: nat,
    parent_cost: int,
    edge: (Pos, int),
) -> Candidate<Pos> {
    let cost = parent_cost + edge.1;
    let estimate = task.goal.estimate(edge.0);
    Candidate {
        priority: task.policy.priority(cost, estimate),
        cost,
        seq: state.pushed + 1,
        pos: edge.0,
        estimate,
        parent: Some(parent),
    }
}

/// Whether the edge leads to a node that enters the frontier: its target is
/// not expanded yet, the node is admitted, and the target does not wait
/// already at the same cost or a smaller one.
pub open spec fn improves<F: Cost, Pos, G: Goal<F, Pos>, M: Movements<F, Pos>, W: Weighting<F>>(
    task: Task<F, Pos, G, M, W>,
    state: SearchState<Pos>,
    parent_cost: int,
    edge: (Pos, int),
) -> bool {
    &&& !state.closed.contains(edge.0)
    &&& admits(task, parent_cost + edge.1, task.goal.estimate(edge.0))
    &&& state.open.contains_key(edge.0) ==> parent_cost + edge.1 < state.open[edge.0]
}

/// Looks at one edge out of the position that is being expanded.
pub open spec fn relax_one<F: Cost, Pos, G: Goal<F, Pos>, M: Movements<F, Pos>, W: Weighting<F>>(
    task: Task<F, Pos, G, M, W>,
    state: SearchState<Pos>,
    parent: nat,
    parent_cost: int,
    edge: (Pos, int),
) -> Relaxed<Pos> {
    if !improves(task, state, parent_cost, edge) {
        Relaxed::Next(state)
    } else if state.pushed >= task.limit {
        Relaxed::OutOfBudget(state)
    } else {
        let node = successor(task, state, parent, parent_cost, edge);
        Relaxed::Next(
            SearchState {
                open: state.open.insert(node.pos, node.cost),
                queue: state.queue.insert(node),
                best: if node.estimate < state.best.estimate {
                    node
                } else {
                    state.best
                },
                pushed: state.pushed + 1,
                ..state
            },
        )
    }
}

/// Looks at the edges from the `from`-th on, in order.
pub open spec fn relax_from<F: Cost, Pos, G: Goal<F, Pos>, M: Movements<F, Pos>, W: Weighting<F>>(
    task: Task<F, Pos, G, M, W>,
    state: SearchState<Pos>,
    parent: nat,
    parent_cost: int,
    edges: Seq<(Pos, int)>,
    from: int,
) -> Relaxed<Pos>
    decreases edges.len() - from,
{
    if from < 0 || from >= edges.len() {
        Relaxed::Next(state)
    } else {
        match relax_one(task, state, parent, parent_cost, edges[from]) {
            Relaxed::Next(next) => relax_from(task, next, parent, parent_cost, edges, from + 1),
            Relaxed::OutOfBudget(last) => Relaxed::OutOfBudget(last),
        }
    }
}

/// The state in which `node` has left the queue and its position has been
/// expanded, before any of its edges is looked at.
pub open spec fn expanded<Pos>(state: SearchState<Pos>, node: Candidate<Pos>) -> SearchState<Pos> {
    SearchState {
        open: state.open.remove(node.pos),
        closed: state.closed.insert(node.pos),
        queue: state.queue.remove(node),
        history: state.history.push((node.pos, node.parent)),
        costs: state.costs.push(node.cost),
        ..state
    }
}

/// One turn of the main loop: takes the first node off the queue; drops it if
/// its position is expanded already; ends the search if it is a goal; else
/// expands it.
pub open spec fn step<F: Cost, Pos, G: Goal<F, Pos>, M: Movements<F, Pos>, W: Weighting<F>>(
    task: Task<F, Pos, G, M, W>,
    state: SearchState<Pos>,
) -> Step<Pos> {
    let node = first(state.queue);
    let taken = SearchState { queue: state.queue.remove(node), ..state };
    if state.closed.contains(node.pos) {
        Step::Continue(taken)
    } else if task.goal.reached(node.pos) {
        Step::Done(
            Outcome {
                result: PathResult::Complete(route(state.history, node)),
                arrived: node,
                last: taken,
            },
        )
    } else {
        match relax_from(
            task,
            expanded(state, node),
            state.history.len(),
            node.cost,
            task.movements.edges(node.pos),
            0,
        ) {
            Relaxed::Next(next) => Step::Continue(next),
            Relaxed::OutOfBudget(last) => Step::Done(
                Outcome {
                    result: PathResult::Timeout(route(last.history, last.best)),
                    arrived: last.best,
                    last,
                },
            ),
        }
    }
}

/// Runs the main loop for at most `turns` turns.
pub open spec fn run<F: Cost, Pos, G: Goal<F, Pos>, M: Movements<F, Pos>, W: Weighting<F>>(
    task: Task<F, Pos, G, M, W>,
    state: SearchState<Pos>,
    turns: nat,
) -> Outcome<Pos>
    decreases turns,
{
    if state.queue.len() == 0 || turns == 0 {
        Outcome {
            result: PathResult::NoPath(route(state.history, state.best)),
            arrived: state.best,
            last: state,
        }
    } else {
        match step(task, state) {
            Step::Continue(next) => run(task, next, (turns - 1) as nat),
            Step::Done(outcome) => outcome,
        }
    }
}

/// The node that a search starts from.
pub open spec fn origin<F: Cost, Pos, G: Goal<F, Pos>, M: Movements<F, Pos>, W: Weighting<F>>(
    task: Task<F, Pos, G, M, W>,
) -> Candidate<Pos> {
    Candidate {
        priority: task.goal.estimate(task.start),
        cost: 0,
        seq: 0,
        pos: task.start,
        estimate: task.goal.estimate(task.start),
        parent: None,
    }
}

/// The state in which a search starts: the start waits alone.
pub open spec fn initial<F: Cost, Pos, G: Goal<F, Pos>, M: Movements<F, Pos>, W: Weighting<F>>(
    task: Task<F, Pos, G, M, W>,
) -> SearchState<Pos> {
    SearchState {
        open: Map::empty(),
        closed: Set::empty(),
        queue: Multiset::singleton(origin(task)),
        history: Seq::empty(),
        costs: Seq::empty(),
        best: origin(task),
        pushed: 0,
    }
}

/// An upper bound on the turns of the main loop: every turn takes one node
/// off the queue, and no more than the limit are ever added to the start.
pub open spec fn turns<F: Cost, Pos, G: Goal<F, Pos>, M: Movements<F, Pos>, W: Weighting<F>>(
    task: Task<F, Pos, G, M, W>,
) -> nat {
    task.limit + 1
}

/// What a search returns and where it stops.
pub open spec fn search<F: Cost, Pos, G: Goal<F, Pos>, M: Movements<F, Pos>, W: Weighting<F>>(
    task: Task<F, Pos, G, M, W>,
) -> Outcome<Pos> {
    run(task, initial(task), turns(task))
}

/// What every state of a search satisfies, as far as the bookkeeping goes:
/// the nodes of the queue can be told apart by their sequence numbers, every
/// link points to a record that exists, and no more nodes were generated
/// than the limit allows.
pub open spec fn coherent<F: Cost, Pos, G: Goal<F, Pos>, M: Movements<F, Pos>, W: Weighting<F>>(
    task: Task<F, Pos, G, M, W>,
    state: SearchState<Pos>,
) -> bool {
    &&& forall|node: Candidate<Pos>| #[trigger]
        state.queue.count(node) > 0 ==> node.seq <= state.pushed && linked(state.history, node)
    &&& forall|a: Candidate<Pos>, b: Candidate<Pos>|
        #![trigger state.queue.count(a), state.queue.count(b)]
        state.queue.count(a) > 0 && state.queue.count(b) > 0 && a.seq == b.seq ==> a == b
    &&& linked(state.history, state.best)
    &&& state.pushed <= task.limit
    &&& state.costs.len() == state.history.len()
}

/// The node's link, if it has one, points to a record that exists.
pub open spec fn linked<Pos>(history: Seq<Record<Pos>>, node: Candidate<Pos>) -> bool {
    node.parent matches Some(p) ==> p < history.len()
}

/// Where sequence numbers tell the nodes apart, only one node can be first.
pub proof fn lemma_first_is<Pos>(queue: Multiset<Candidate<Pos>>, node: Candidate<Pos>)
    requires
        is_first(queue, node),
        forall|a: Candidate<Pos>, b: Candidate<Pos>|
            #![trigger queue.count(a), queue.count(b)]
            queue.count(a) > 0 && queue.count(b) > 0 && a.seq == b.seq ==> a == b,
    ensures
        first(queue) == node,
{
    let chosen = first(queue);
    assert(is_first(queue, chosen));
    assert(!before(chosen, node));
    assert(!before(node, chosen));
    assert(queue.count(chosen) > 0 && queue.count(node) > 0);
}

/// The start state is coherent.
pub proof fn lemma_initial_coherent<
    F: Cost,
    Pos,
    G: Goal<F, Pos>,
    M: Movements<F, Pos>,
    W: Weighting<F>,
>(task: Task<F, Pos, G, M, W>)
    ensures
        coherent(task, initial(task)),
{
    broadcast use vstd::multiset::group_multiset_axioms;
}

/// Taking a node off the queue keeps the state coherent.
pub proof fn lemma_taken_coherent<
    F: Cost,
    Pos,
    G: Goal<F, Pos>,
    M: Movements<F, Pos>,
    W: Weighting<F>,
>(task: Task<F, Pos, G, M, W>, state: SearchState<Pos>, node: Candidate<Pos>)
    requires
        coherent(task, state),
        state.queue.count(node) > 0,
    ensures
        coherent(task, SearchState { queue: state.queue.remove(node), ..state }),
        state.queue.remove(node).len() == state.queue.len() - 1,
        coherent(task, expanded(state, node)),
{
    broadcast use vstd::multiset::group_multiset_axioms;

    let rest = state.queue.remove(node);
    assert forall|other: Candidate<Pos>| rest.count(other) > 0 implies state.queue.count(other)
        > 0 by {}
    let after = expanded(state, node);
    assert forall|other: Candidate<Pos>| #[trigger] after.queue.count(other) > 0 implies other.seq
        <= after.pushed && linked(after.history, other) by {
        assert(state.queue.count(other) > 0);
    }
}

/// Looking at one edge keeps the state coherent, and the queue grows
/// exactly as the count of generated nodes does.
pub proof fn lemma_relax_one_coherent<
    F: Cost,
    Pos,
    G: Goal<F, Pos>,
    M: Movements<F, Pos>,
    W: Weighting<F>,
>(
    task: Task<F, Pos, G, M, W>,
    state: SearchState<Pos>,
    parent: nat,
    parent_cost: int,
    edge: (Pos, int),
)
    requires
        coherent(task, state),
        parent < state.history.len(),
    ensures
        match relax_one(task, state, parent, parent_cost, edge) {
            Relaxed::Next(next) => coherent(task, next) && next.queue.len() - next.pushed
                == state.queue.len() - state.pushed && next.history == state.history
                && next.costs == state.costs && next.closed == state.closed,
            Relaxed::OutOfBudget(last) => last == state,
        },
{
    broadcast use vstd::multiset::group_multiset_axioms;

    if improves(task, state, parent_cost, edge) && state.pushed < task.limit {
        let node = successor(task, state, parent, parent_cost, edge);
        let next = relax_one(task, state, parent, parent_cost, edge)->Next_0;
        assert(state.queue.count(node) == 0) by {
            if state.queue.count(node) > 0 {
                assert(node.seq <= state.pushed);
            }
        }
        assert forall|other: Candidate<Pos>| #[trigger] next.queue.count(other) > 0 implies other.seq
            <= next.pushed && linked(next.history, other) by {
            if other != node {
                assert(state.queue.count(other) > 0);
            }
        }
        assert forall|a: Candidate<Pos>, b: Candidate<Pos>|
            #![trigger next.queue.count(a), next.queue.count(b)]
            next.queue.count(a) > 0 && next.queue.count(b) > 0 && a.seq == b.seq implies a == b by {
            if a != node {
                assert(state.queue.count(a) > 0);
            }
            if b != node {
                assert(state.queue.count(b) > 0);
            }
        }
    }
}

} // verus!
