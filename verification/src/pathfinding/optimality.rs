//! How good the path of a search is.
//!
//! Where edges cost nothing negative, the estimate is consistent and the
//! priority is cost plus `weight` times estimate, a search expands every
//! position at a cost of at most `weight` times the cost of any walk to it.
//! So a complete path costs at most `weight` times what the cheapest walk to
//! any goal costs, and a search that runs out of nodes shows that no goal
//! can be reached.

use super::history::chain;
use super::model::{
    admits, before, expanded, first, improves, initial, is_first, lemma_initial_coherent,
    lemma_relax_one_coherent, lemma_taken_coherent, origin, relax_from, relax_one, run, search,
    step, successor, turns, Candidate, Outcome, Relaxed, SearchState, Step, Task,
};
use super::routes::{
    has_edge, lemma_chain_walks, lemma_expanded_traced, lemma_has_first, lemma_initial_traced,
    lemma_relax_one_traced, lemma_result_is_walk, lemma_run_sound, lemma_taken_traced, sound,
    traced_node, walk,
};
use super::weighting::Weighting;
use super::{Goal, Movements, PathResult};
use crate::cost::Cost;
use vstd::prelude::*;

verus! {

/// No edge has a negative cost.
pub open spec fn steps_cost_nothing_negative<F: Cost, Pos, M: Movements<F, Pos>>(
    movements: M,
) -> bool {
    forall|pos: Pos, i: int|
        0 <= i < movements.edges(pos).len() ==> (#[trigger] movements.edges(pos)[i]).1 >= 0
}

/// The estimate is never negative, is zero wherever the goal is reached, and
/// drops along an edge by no more than the edge costs.
pub open spec fn consistent<F: Cost, Pos, G: Goal<F, Pos>, M: Movements<F, Pos>>(
    goal: G,
    movements: M,
) -> bool {
    &&& forall|pos: Pos| #[trigger] goal.estimate(pos) >= 0
    &&& forall|pos: Pos| #[trigger] goal.reached(pos) ==> goal.estimate(pos) == 0
    &&& forall|pos: Pos, i: int|
        0 <= i < movements.edges(pos).len() ==> goal.estimate(pos) <= (
        #[trigger] movements.edges(pos)[i]).1 + goal.estimate(movements.edges(pos)[i].0)
}

/// The cost type has a value for zero and for every number between zero and
/// a number that it has a value for.
pub open spec fn spans_an_interval<F: Cost>() -> bool {
    &&& F::representable(0)
    &&& forall|small: int, large: int|
        0 <= small <= large && #[trigger] F::representable(large) ==> #[trigger] F::representable(
            small,
        )
}

/// The policy's priority is cost plus `weight` times estimate, for a weight
/// of at least one, and the policy has a key wherever the cost type has
/// values for the weighted estimate and for the priority.
pub open spec fn weighted_by<F: Cost, W: Weighting<F>>(policy: W, weight: int) -> bool {
    &&& weight >= 1
    &&& forall|cost: int, estimate: int| #[trigger]
        policy.priority(cost, estimate) == cost + estimate * weight
    &&& forall|cost: int, estimate: int|
        F::representable(estimate * weight) && F::representable(cost + estimate * weight)
            ==> #[trigger] policy.keyed(cost, estimate)
}

/// The conditions under which a search is as good as its weight says.
pub open spec fn fair<F: Cost, Pos, G: Goal<F, Pos>, M: Movements<F, Pos>, W: Weighting<F>>(
    task: Task<F, Pos, G, M, W>,
    weight: int,
) -> bool {
    &&& steps_cost_nothing_negative::<F, Pos, M>(task.movements)
    &&& consistent(task.goal, task.movements)
    &&& spans_an_interval::<F>()
    &&& weighted_by(task.policy, weight)
}

/// Whether a walk whose cost and final estimate add up to `total` stays
/// inside what a search looks at: `weight` times `total` has a value in the
/// cost type and is within the bound if there is one.
pub open spec fn within<F: Cost, Pos, G: Goal<F, Pos>, M: Movements<F, Pos>, W: Weighting<F>>(
    task: Task<F, Pos, G, M, W>,
    weight: int,
    total: int,
) -> bool {
    &&& F::representable(total * weight)
    &&& task.bound.value() != 0 ==> total * weight <= task.bound.value()
}

/// `cost` is at most `weight` times the cost of any walk from the start to
/// `pos` that stays inside what a search looks at.
pub open spec fn cheapest_up_to<
    F: Cost,
    Pos,
    G: Goal<F, Pos>,
    M: Movements<F, Pos>,
    W: Weighting<F>,
>(task: Task<F, Pos, G, M, W>, weight: int, pos: Pos, cost: int) -> bool {
    forall|path: Seq<Pos>, total: int|
        #[trigger] walk(task.movements, path, total) && path.first() == task.start && path.last()
            == pos && within(task, weight, total + task.goal.estimate(pos)) ==> cost <= total
            * weight
}

/// The `at`-th edge out of record `id` has been dealt with: its target is
/// expanded, or the node it leads to is not admitted, or the target waits at
/// a cost no larger than the edge gives.
pub open spec fn relaxed<F: Cost, Pos, G: Goal<F, Pos>, M: Movements<F, Pos>, W: Weighting<F>>(
    task: Task<F, Pos, G, M, W>,
    state: SearchState<Pos>,
    id: int,
    at: int,
) -> bool {
    let edge = task.movements.edges(state.history[id].0)[at];
    let cost = state.costs[id] + edge.1;
    ||| state.closed.contains(edge.0)
    ||| !admits(task, cost, task.goal.estimate(edge.0))
    ||| (state.open.contains_key(edge.0) && state.open[edge.0] <= cost)
}

/// All edges out of the records before `fully`, and the first `looked` edges
/// out of record `fully`, have been dealt with.
pub open spec fn relaxed_until<
    F: Cost,
    Pos,
    G: Goal<F, Pos>,
    M: Movements<F, Pos>,
    W: Weighting<F>,
>(task: Task<F, Pos, G, M, W>, state: SearchState<Pos>, fully: int, looked: int) -> bool {
    forall|id: int, at: int|
        0 <= id < state.history.len() && 0 <= at < task.movements.edges(state.history[id].0).len()
            && (id < fully || (id == fully && at < looked)) ==> #[trigger] relaxed(
            task,
            state,
            id,
            at,
        )
}

/// `node` waits in the queue for a position that is not expanded, with a
/// priority of at most `key`.
pub open spec fn waits_within<Pos>(state: SearchState<Pos>, node: Candidate<Pos>, key: int) -> bool {
    state.queue.count(node) > 0 && !state.closed.contains(node.pos) && node.priority <= key
}

/// `node` is the one that `open` speaks of at `pos`.
pub open spec fn stands_for<Pos>(
    state: SearchState<Pos>,
    node: Candidate<Pos>,
    pos: Pos,
    weight: int,
) -> bool {
    &&& state.queue.count(node) > 0
    &&& node.pos == pos
    &&& node.cost == state.open[pos]
    &&& node.priority == node.cost + node.estimate * weight
}

/// What every state of a fair search satisfies besides being sound.
pub open spec fn settled<F: Cost, Pos, G: Goal<F, Pos>, M: Movements<F, Pos>, W: Weighting<F>>(
    task: Task<F, Pos, G, M, W>,
    weight: int,
    state: SearchState<Pos>,
) -> bool {
    &&& forall|pos: Pos| #[trigger]
        state.open.contains_key(pos) ==> !state.closed.contains(pos) && exists|
            node: Candidate<Pos>,
        |
            stands_for(state, node, pos, weight)
    &&& forall|node: Candidate<Pos>| #[trigger]
        state.queue.count(node) > 0 && node.parent is Some ==> node.priority == node.cost
            + node.estimate * weight
    &&& forall|id: int|
        0 <= id < state.history.len() ==> cheapest_up_to(
            task,
            weight,
            state.history[id].0,
            #[trigger] state.costs[id],
        )
    &&& forall|pos: Pos| #[trigger] state.closed.contains(pos) ==> !task.goal.reached(pos)
    &&& state.closed.contains(task.start) || state.queue.count(origin(task)) > 0
}

proof fn lemma_scale(small: int, large: int, weight: int)
    requires
        0 <= small <= large,
        weight >= 1,
    ensures
        0 <= small <= small * weight <= large * weight,
{
    assert(0 <= small <= small * weight <= large * weight) by (nonlinear_arith)
        requires
            0 <= small <= large,
            weight >= 1,
    ;
}

proof fn lemma_scale_sum(a: int, b: int, weight: int)
    ensures
        (a + b) * weight == a * weight + b * weight,
{
    assert((a + b) * weight == a * weight + b * weight) by (nonlinear_arith);
}

/// A walk over edges that cost nothing negative costs nothing negative.
pub proof fn lemma_walk_not_negative<F: Cost, Pos, M: Movements<F, Pos>>(
    movements: M,
    path: Seq<Pos>,
    total: int,
)
    requires
        steps_cost_nothing_negative::<F, Pos, M>(movements),
        walk(movements, path, total),
    ensures
        total >= 0,
    decreases path.len(),
{
    if path.len() > 1 {
        let last = choose|last: int| #[trigger]
            has_edge(movements, path[path.len() - 2], path.last(), last) && walk(
                movements,
                path.drop_last(),
                total - last,
            );
        lemma_walk_not_negative(movements, path.drop_last(), total - last);
        let i = choose|i: int|
            0 <= i < movements.edges(path[path.len() - 2]).len() && #[trigger] movements.edges(
                path[path.len() - 2],
            )[i] == (path.last(), last);
        assert(movements.edges(path[path.len() - 2])[i].1 >= 0);
    }
}

/// In a state between two turns, every walk from the start that stays inside
/// what the search looks at ends at an expanded position, or some node waits
/// whose priority is at most `weight` times the walk's cost plus final
/// estimate.
pub proof fn lemma_reach<F: Cost, Pos, G: Goal<F, Pos>, M: Movements<F, Pos>, W: Weighting<F>>(
    task: Task<F, Pos, G, M, W>,
    weight: int,
    state: SearchState<Pos>,
    path: Seq<Pos>,
    total: int,
)
    requires
        fair(task, weight),
        sound(task, state),
        settled(task, weight, state),
        relaxed_until(task, state, state.history.len() as int, 0),
        walk(task.movements, path, total),
        path.first() == task.start,
        within(task, weight, total + task.goal.estimate(path.last())),
    ensures
        state.closed.contains(path.last()) || exists|node: Candidate<Pos>| #[trigger]
            waits_within(state, node, (total + task.goal.estimate(path.last())) * weight),
    decreases path.len(),
{
    let to = path.last();
    let key = (total + task.goal.estimate(to)) * weight;
    lemma_walk_not_negative(task.movements, path, total);
    if path.len() == 1 {
        if !state.closed.contains(task.start) {
            lemma_scale(task.goal.estimate(to), task.goal.estimate(to), weight);
            assert(waits_within(state, origin(task), key));
        }
    } else {
        let step_cost = choose|last: int| #[trigger]
            has_edge(task.movements, path[path.len() - 2], path.last(), last) && walk(
                task.movements,
                path.drop_last(),
                total - last,
            );
        let from = path[path.len() - 2];
        let shorter = path.drop_last();
        let before_step = total - step_cost;
        let at = choose|i: int|
            0 <= i < task.movements.edges(from).len() && #[trigger] task.movements.edges(from)[i]
                == (to, step_cost);
        let edge = task.movements.edges(from)[at];
        assert(edge.1 >= 0);
        assert(task.goal.estimate(from) <= edge.1 + task.goal.estimate(edge.0));
        lemma_walk_not_negative(task.movements, shorter, before_step);
        assert(task.goal.estimate(from) >= 0);
        assert(task.goal.estimate(to) >= 0);
        lemma_scale(
            before_step + task.goal.estimate(from),
            total + task.goal.estimate(to),
            weight,
        );
        assert(shorter.last() == from);
        assert(shorter.first() == task.start);
        lemma_reach(task, weight, state, shorter, before_step);
        if state.closed.contains(from) {
            let id = choose|id: int|
                0 <= id < state.history.len() && (#[trigger] state.history[id]).0 == from;
            assert(cheapest_up_to(task, weight, state.history[id].0, state.costs[id]));
            assert(state.costs[id] <= before_step * weight);
            assert(relaxed(task, state, id, at));
            lemma_chain_walks(task, state, id as nat);
            lemma_walk_not_negative(
                task.movements,
                chain(state.history, id as nat),
                state.costs[id],
            );
            let cost = state.costs[id] + step_cost;
            let estimate = task.goal.estimate(to);
            lemma_scale(step_cost, step_cost, weight);
            lemma_scale(estimate, estimate, weight);
            lemma_scale_sum(before_step, step_cost, weight);
            lemma_scale_sum(total, estimate, weight);
            assert(0 <= cost <= total * weight);
            assert(cost + estimate * weight <= key);
            assert(0 <= estimate * weight <= key);
            assert(0 <= cost + estimate <= key);
            assert(F::representable(key));
            assert(F::representable(cost));
            assert(F::representable(cost + estimate));
            assert(F::representable(estimate * weight));
            assert(F::representable(cost + estimate * weight));
            assert(task.policy.keyed(cost, estimate));
            assert(admits(task, cost, estimate));
            if !state.closed.contains(to) {
                assert(state.open.contains_key(to) && state.open[to] <= cost);
                let node = choose|node: Candidate<Pos>| stands_for(state, node, to, weight);
                assert(traced_node(task, state, node));
                assert(waits_within(state, node, key));
            }
        } else {
            let node = choose|node: Candidate<Pos>| #[trigger]
                waits_within(state, node, (before_step + task.goal.estimate(from)) * weight);
            assert(waits_within(state, node, key));
        }
    }
}

/// The start state of a fair search is settled.
pub proof fn lemma_initial_settled<
    F: Cost,
    Pos,
    G: Goal<F, Pos>,
    M: Movements<F, Pos>,
    W: Weighting<F>,
>(task: Task<F, Pos, G, M, W>, weight: int)
    requires
        fair(task, weight),
    ensures
        settled(task, weight, initial(task)),
        relaxed_until(task, initial(task), 0, 0),
{
    broadcast use vstd::multiset::group_multiset_axioms;

    let state = initial(task);
    assert forall|node: Candidate<Pos>| #[trigger]
        state.queue.count(node) > 0 && node.parent is Some implies node.priority == node.cost
        + node.estimate * weight by {
        assert(node == origin(task));
    }
}

/// Dropping a node whose position is expanded keeps the state settled.
pub proof fn lemma_stale_settled<
    F: Cost,
    Pos,
    G: Goal<F, Pos>,
    M: Movements<F, Pos>,
    W: Weighting<F>,
>(task: Task<F, Pos, G, M, W>, weight: int, state: SearchState<Pos>, node: Candidate<Pos>)
    requires
        settled(task, weight, state),
        relaxed_until(task, state, state.history.len() as int, 0),
        state.queue.count(node) > 0,
        state.closed.contains(node.pos),
    ensures
        settled(task, weight, SearchState { queue: state.queue.remove(node), ..state }),
        relaxed_until(
            task,
            SearchState { queue: state.queue.remove(node), ..state },
            state.history.len() as int,
            0,
        ),
{
    broadcast use vstd::multiset::group_multiset_axioms;

    let taken = SearchState { queue: state.queue.remove(node), ..state };
    assert forall|pos: Pos| #[trigger] taken.open.contains_key(pos) implies !taken.closed.contains(
        pos,
    ) && exists|other: Candidate<Pos>| stands_for(taken, other, pos, weight) by {
        assert(state.open.contains_key(pos));
        let other = choose|other: Candidate<Pos>| stands_for(state, other, pos, weight);
        assert(other != node);
        assert(stands_for(taken, other, pos, weight));
    }
    assert forall|other: Candidate<Pos>| #[trigger]
        taken.queue.count(other) > 0 && other.parent is Some implies other.priority == other.cost
        + other.estimate * weight by {
        assert(state.queue.count(other) > 0);
    }
    assert forall|id: int| 0 <= id < taken.history.len() implies cheapest_up_to(
        task,
        weight,
        taken.history[id].0,
        #[trigger] taken.costs[id],
    ) by {
        assert(cheapest_up_to(task, weight, state.history[id].0, state.costs[id]));
    }
    assert forall|id: int, at: int|
        0 <= id < taken.history.len() && 0 <= at < task.movements.edges(
            taken.history[id].0,
        ).len() implies #[trigger] relaxed(task, taken, id, at) by {
        assert(relaxed(task, state, id, at));
    }
}

/// Expanding the first node of the queue keeps the state settled: the node's
/// cost is at most `weight` times the cost of any walk to its position.
pub proof fn lemma_expanded_settled<
    F: Cost,
    Pos,
    G: Goal<F, Pos>,
    M: Movements<F, Pos>,
    W: Weighting<F>,
>(task: Task<F, Pos, G, M, W>, weight: int, state: SearchState<Pos>, node: Candidate<Pos>)
    requires
        fair(task, weight),
        sound(task, state),
        settled(task, weight, state),
        relaxed_until(task, state, state.history.len() as int, 0),
        is_first(state.queue, node),
        !state.closed.contains(node.pos),
        !task.goal.reached(node.pos),
    ensures
        settled(task, weight, expanded(state, node)),
        relaxed_until(task, expanded(state, node), state.history.len() as int, 0),
{
    broadcast use vstd::multiset::group_multiset_axioms;

    let after = expanded(state, node);
    let new_id = state.history.len() as int;
    assert(traced_node(task, state, node));
    lemma_first_is_cheap(task, weight, state, node);
    assert forall|id: int| 0 <= id < after.history.len() implies cheapest_up_to(
        task,
        weight,
        after.history[id].0,
        #[trigger] after.costs[id],
    ) by {
        if id < new_id {
            assert(cheapest_up_to(task, weight, state.history[id].0, state.costs[id]));
        }
    }
    assert forall|pos: Pos| #[trigger] after.open.contains_key(pos) implies !after.closed.contains(
        pos,
    ) && exists|other: Candidate<Pos>| stands_for(after, other, pos, weight) by {
        assert(state.open.contains_key(pos));
        let other = choose|other: Candidate<Pos>| stands_for(state, other, pos, weight);
        assert(other != node);
        assert(stands_for(after, other, pos, weight));
    }
    assert forall|other: Candidate<Pos>| #[trigger]
        after.queue.count(other) > 0 && other.parent is Some implies other.priority == other.cost
        + other.estimate * weight by {
        assert(state.queue.count(other) > 0);
    }
    assert(after.closed.contains(task.start) || after.queue.count(origin(task)) > 0) by {
        if node.pos != task.start {
            assert(origin(task) != node);
        }
    }
    assert forall|id: int, at: int|
        0 <= id < after.history.len() && 0 <= at < task.movements.edges(
            after.history[id].0,
        ).len() && id < new_id implies #[trigger] relaxed(task, after, id, at) by {
        assert(relaxed(task, state, id, at));
    }
}

/// The first node of the queue, if its position is not expanded, costs at
/// most `weight` times what any walk to its position costs.
pub proof fn lemma_first_is_cheap<
    F: Cost,
    Pos,
    G: Goal<F, Pos>,
    M: Movements<F, Pos>,
    W: Weighting<F>,
>(task: Task<F, Pos, G, M, W>, weight: int, state: SearchState<Pos>, node: Candidate<Pos>)
    requires
        fair(task, weight),
        sound(task, state),
        settled(task, weight, state),
        relaxed_until(task, state, state.history.len() as int, 0),
        is_first(state.queue, node),
        !state.closed.contains(node.pos),
    ensures
        cheapest_up_to(task, weight, node.pos, node.cost),
{
    assert(traced_node(task, state, node));
    assert forall|path: Seq<Pos>, total: int|
        #[trigger] walk(task.movements, path, total) && path.first() == task.start && path.last()
            == node.pos && within(
            task,
            weight,
            total + task.goal.estimate(node.pos),
        ) implies node.cost <= total * weight by {
        lemma_reach(task, weight, state, path, total);
        lemma_walk_not_negative(task.movements, path, total);
        let other = choose|other: Candidate<Pos>| #[trigger]
            waits_within(state, other, (total + task.goal.estimate(node.pos)) * weight);
        assert(!before(other, node));
        lemma_scale_sum(total, task.goal.estimate(node.pos), weight);
        lemma_scale(total, total, weight);
    }
}

/// Looking at one edge out of the last record keeps the state settled and
/// deals with that edge.
pub proof fn lemma_relax_one_settled<
    F: Cost,
    Pos,
    G: Goal<F, Pos>,
    M: Movements<F, Pos>,
    W: Weighting<F>,
>(
    task: Task<F, Pos, G, M, W>,
    weight: int,
    state: SearchState<Pos>,
    edges: Seq<(Pos, int)>,
    at: int,
)
    requires
        fair(task, weight),
        sound(task, state),
        settled(task, weight, state),
        state.history.len() > 0,
        relaxed_until(task, state, state.history.len() - 1, at),
        edges == task.movements.edges(state.history.last().0),
        0 <= at < edges.len(),
    ensures
        match relax_one(
            task,
            state,
            (state.history.len() - 1) as nat,
            state.costs.last(),
            edges[at],
        ) {
            Relaxed::Next(next) => settled(task, weight, next) && relaxed_until(
                task,
                next,
                state.history.len() - 1,
                at + 1,
            ),
            Relaxed::OutOfBudget(last) => true,
        },
{
    broadcast use vstd::multiset::group_multiset_axioms;

    let parent = (state.history.len() - 1) as nat;
    let parent_cost = state.costs.last();
    let edge = edges[at];
    if !improves(task, state, parent_cost, edge) {
        assert(relaxed(task, state, parent as int, at));
        assert forall|id: int, j: int|
            0 <= id < state.history.len() && 0 <= j < task.movements.edges(
                state.history[id].0,
            ).len() && (id < parent || (id == parent && j < at + 1)) implies #[trigger] relaxed(
            task,
            state,
            id,
            j,
        ) by {
            if id == parent && j == at {
            } else {
                assert(relaxed(task, state, id, j));
            }
        }
    } else if state.pushed < task.limit {
        let node = successor(task, state, parent, parent_cost, edge);
        let next = relax_one(task, state, parent, parent_cost, edge)->Next_0;
        assert(state.queue.count(node) == 0) by {
            if state.queue.count(node) > 0 {
                assert(node.seq <= state.pushed);
            }
        }
        assert forall|pos: Pos| #[trigger] next.open.contains_key(pos) implies !next.closed.contains(
            pos,
        ) && exists|other: Candidate<Pos>| stands_for(next, other, pos, weight) by {
            if pos == node.pos {
                assert(stands_for(next, node, pos, weight));
            } else {
                assert(state.open.contains_key(pos));
                let other = choose|other: Candidate<Pos>| stands_for(state, other, pos, weight);
                assert(stands_for(next, other, pos, weight));
            }
        }
        assert forall|other: Candidate<Pos>| #[trigger]
            next.queue.count(other) > 0 && other.parent is Some implies other.priority
            == other.cost + other.estimate * weight by {
            if other != node {
                assert(state.queue.count(other) > 0);
            }
        }
        assert forall|id: int| 0 <= id < next.history.len() implies cheapest_up_to(
            task,
            weight,
            next.history[id].0,
            #[trigger] next.costs[id],
        ) by {
            assert(cheapest_up_to(task, weight, state.history[id].0, state.costs[id]));
        }
        assert forall|id: int, j: int|
            0 <= id < next.history.len() && 0 <= j < task.movements.edges(
                next.history[id].0,
            ).len() && (id < parent || (id == parent && j < at + 1)) implies #[trigger] relaxed(
            task,
            next,
            id,
            j,
        ) by {
            if id == parent && j == at {
            } else {
                assert(relaxed(task, state, id, j));
            }
        }
    }
}

/// Looking at the edges out of the last record, from the `from`-th on,
/// keeps the state sound and settled and deals with all of them.
pub proof fn lemma_relax_from_settled<
    F: Cost,
    Pos,
    G: Goal<F, Pos>,
    M: Movements<F, Pos>,
    W: Weighting<F>,
>(
    task: Task<F, Pos, G, M, W>,
    weight: int,
    state: SearchState<Pos>,
    edges: Seq<(Pos, int)>,
    from: int,
)
    requires
        fair(task, weight),
        sound(task, state),
        settled(task, weight, state),
        state.history.len() > 0,
        relaxed_until(task, state, state.history.len() - 1, from),
        edges == task.movements.edges(state.history.last().0),
        0 <= from <= edges.len(),
    ensures
        match relax_from(
            task,
            state,
            (state.history.len() - 1) as nat,
            state.costs.last(),
            edges,
            from,
        ) {
            Relaxed::Next(next) => sound(task, next) && settled(task, weight, next)
                && relaxed_until(task, next, next.history.len() as int, 0) && next.queue.len()
                - next.pushed == state.queue.len() - state.pushed,
            Relaxed::OutOfBudget(last) => true,
        },
    decreases edges.len() - from,
{
    let parent = (state.history.len() - 1) as nat;
    let parent_cost = state.costs.last();
    if from < edges.len() {
        lemma_relax_one_coherent(task, state, parent, parent_cost, edges[from]);
        lemma_relax_one_traced(task, state, parent, edges, from);
        lemma_relax_one_settled(task, weight, state, edges, from);
        match relax_one(task, state, parent, parent_cost, edges[from]) {
            Relaxed::Next(next) => {
                lemma_relax_from_settled(task, weight, next, edges, from + 1);
            },
            Relaxed::OutOfBudget(last) => {},
        }
    } else {
        assert forall|id: int, at: int|
            0 <= id < state.history.len() && 0 <= at < task.movements.edges(
                state.history[id].0,
            ).len() implies #[trigger] relaxed(task, state, id, at) by {}
    }
}

/// What a fair search with this weight guarantees of its result: a complete
/// path costs at most `weight` times the cost of any walk from the start to a
/// position that the goal accepts, as far as the search looks; and where the
/// search ran out of nodes, there is no such walk as far as it looks.
pub open spec fn guaranteed<F: Cost, Pos, G: Goal<F, Pos>, M: Movements<F, Pos>, W: Weighting<F>>(
    task: Task<F, Pos, G, M, W>,
    weight: int,
    outcome: Outcome<Pos>,
) -> bool {
    match outcome.result {
        PathResult::Complete(_) => forall|path: Seq<Pos>, total: int|
            #[trigger] walk(task.movements, path, total) && path.first() == task.start
                && task.goal.reached(path.last()) && within(task, weight, total)
                ==> outcome.arrived.cost <= total * weight,
        PathResult::NoPath(_) => forall|path: Seq<Pos>, total: int|
            #[trigger] walk(task.movements, path, total) && path.first() == task.start
                && task.goal.reached(path.last()) ==> !within(task, weight, total),
        _ => true,
    }
}

/// One turn of the main loop of a fair search keeps the state sound and
/// settled, and where it ends the search, the result is as guaranteed.
pub proof fn lemma_step_settled<
    F: Cost,
    Pos,
    G: Goal<F, Pos>,
    M: Movements<F, Pos>,
    W: Weighting<F>,
>(task: Task<F, Pos, G, M, W>, weight: int, state: SearchState<Pos>)
    requires
        fair(task, weight),
        sound(task, state),
        settled(task, weight, state),
        relaxed_until(task, state, state.history.len() as int, 0),
        state.queue.len() > 0,
    ensures
        match step(task, state) {
            Step::Continue(next) => sound(task, next) && settled(task, weight, next)
                && relaxed_until(task, next, next.history.len() as int, 0) && next.queue.len()
                - next.pushed == state.queue.len() - 1 - state.pushed,
            Step::Done(outcome) => guaranteed(task, weight, outcome),
        },
{
    lemma_has_first(state.queue);
    let node = first(state.queue);
    lemma_taken_coherent(task, state, node);
    lemma_taken_traced(task, state, node);
    if state.closed.contains(node.pos) {
        lemma_stale_settled(task, weight, state, node);
    } else if task.goal.reached(node.pos) {
        assert(traced_node(task, state, node));
        assert(task.goal.estimate(node.pos) == 0);
        assert forall|path: Seq<Pos>, total: int|
            #[trigger] walk(task.movements, path, total) && path.first() == task.start
                && task.goal.reached(path.last()) && within(
                task,
                weight,
                total,
            ) implies node.cost <= total * weight by {
            assert(task.goal.estimate(path.last()) == 0);
            lemma_reach(task, weight, state, path, total);
            lemma_walk_not_negative(task.movements, path, total);
            let other = choose|other: Candidate<Pos>| #[trigger]
                waits_within(state, other, (total + task.goal.estimate(path.last())) * weight);
            assert(!before(other, node));
            lemma_scale(total, total, weight);
        }
    } else {
        lemma_expanded_traced(task, state, node);
        lemma_expanded_settled(task, weight, state, node);
        let after = expanded(state, node);
        assert(after.history.last().0 == node.pos);
        assert(after.costs.last() == node.cost);
        lemma_relax_from_settled(task, weight, after, task.movements.edges(node.pos), 0);
    }
}

/// A fair search ends as guaranteed.
pub proof fn lemma_run_settled<
    F: Cost,
    Pos,
    G: Goal<F, Pos>,
    M: Movements<F, Pos>,
    W: Weighting<F>,
>(task: Task<F, Pos, G, M, W>, weight: int, state: SearchState<Pos>, turns: nat)
    requires
        fair(task, weight),
        sound(task, state),
        settled(task, weight, state),
        relaxed_until(task, state, state.history.len() as int, 0),
        turns + state.pushed >= state.queue.len() + task.limit,
    ensures
        guaranteed(task, weight, run(task, state, turns)),
    decreases turns,
{
    if state.queue.len() == 0 || turns == 0 {
        assert(state.queue.len() == 0);
        assert forall|path: Seq<Pos>, total: int|
            #[trigger] walk(task.movements, path, total) && path.first() == task.start
                && task.goal.reached(path.last()) implies !within(task, weight, total) by {
            if within(task, weight, total) {
                assert(task.goal.estimate(path.last()) == 0);
                lemma_reach(task, weight, state, path, total);
                if !state.closed.contains(path.last()) {
                    let node = choose|node: Candidate<Pos>| #[trigger]
                        waits_within(
                            state,
                            node,
                            (total + task.goal.estimate(path.last())) * weight,
                        );
                    vstd::multiset::lemma_multiset_empty_len(state.queue);
                }
            }
        }
    } else {
        lemma_step_settled(task, weight, state);
        match step(task, state) {
            Step::Continue(next) => {
                lemma_run_settled(task, weight, next, (turns - 1) as nat);
            },
            Step::Done(outcome) => {},
        }
    }
}

/// A fair search is as good as its weight says: its complete path costs at
/// most `weight` times the cost of any walk from the start to a position that
/// the goal accepts, provided `weight` times that cost has a value in the
/// cost type and is within the bound; and when it ends with `NoPath`, no walk
/// from the start to such a position has a cost of which that holds.
pub proof fn lemma_search_guaranteed<
    F: Cost,
    Pos,
    G: Goal<F, Pos>,
    M: Movements<F, Pos>,
    W: Weighting<F>,
>(task: Task<F, Pos, G, M, W>, weight: int)
    requires
        fair(task, weight),
    ensures
        guaranteed(task, weight, search(task)),
{
    broadcast use vstd::multiset::group_multiset_axioms;

    lemma_initial_coherent(task);
    lemma_initial_traced(task);
    lemma_initial_settled(task, weight);
    lemma_run_settled(task, weight, initial(task), turns(task));
}

/// Bounded suboptimality. A fair search without a cost bound hands back a
/// complete path that costs at most `weight` times what any walk from the
/// start to a position that the goal accepts costs.
pub proof fn lemma_complete_path_within_weight<
    F: Cost,
    Pos,
    G: Goal<F, Pos>,
    M: Movements<F, Pos>,
    W: Weighting<F>,
>(task: Task<F, Pos, G, M, W>, weight: int)
    requires
        fair(task, weight),
        task.bound.value() == 0,
    ensures
        search(task).result is Complete ==> forall|path: Seq<Pos>, total: int|
            #[trigger] walk(task.movements, path, total) && path.first() == task.start
                && task.goal.reached(path.last()) ==> search(task).arrived.cost <= total * weight,
{
    lemma_search_guaranteed(task, weight);
    lemma_initial_coherent(task);
    lemma_initial_traced(task);
    lemma_run_sound(task, initial(task), turns(task));
    let outcome = search(task);
    if outcome.result is Complete {
        assert(traced_node(task, outcome.last, outcome.arrived));
        assert(F::representable(outcome.arrived.cost));
        assert forall|path: Seq<Pos>, total: int|
            #[trigger] walk(task.movements, path, total) && path.first() == task.start
                && task.goal.reached(path.last()) implies outcome.arrived.cost <= total
            * weight by {
            lemma_walk_not_negative(task.movements, path, total);
            lemma_scale(total, total, weight);
            if !F::representable(total * weight) {
                if total * weight < outcome.arrived.cost {
                    assert(F::representable(total * weight));
                }
            }
        }
    }
}

/// Optimality. A search by cost plus estimate, without a cost bound, over
/// edges that cost nothing negative and with a consistent estimate, hands
/// back a complete path that costs no more than any walk from the start to a
/// position that the goal accepts. As the path is such a walk itself, its
/// cost is the least there is.
pub proof fn lemma_complete_path_is_cheapest<
    F: Cost,
    Pos,
    G: Goal<F, Pos>,
    M: Movements<F, Pos>,
    W: Weighting<F>,
>(task: Task<F, Pos, G, M, W>)
    requires
        fair(task, 1),
        task.bound.value() == 0,
    ensures
        search(task).result is Complete ==> forall|path: Seq<Pos>, total: int|
            #[trigger] walk(task.movements, path, total) && path.first() == task.start
                && task.goal.reached(path.last()) ==> search(task).arrived.cost <= total,
        search(task).result is Complete ==> walk(
            task.movements,
            search(task).result.path(),
            search(task).arrived.cost,
        ) && search(task).result.path().first() == task.start && task.goal.reached(
            search(task).result.path().last(),
        ),
{
    lemma_complete_path_within_weight(task, 1);
    lemma_result_is_walk(task);
}

/// Pruning by the bound. For a search by cost plus estimate with a positive
/// cost bound, over edges that cost nothing negative and with a consistent
/// estimate: where every walk from the start to a position that the goal
/// accepts costs more than the bound, the result is `NoPath`, unless the
/// limit on nodes was used up first and it is `Timeout`; and where one such
/// walk costs no more than the bound, the result is not `NoPath`, and a
/// complete path costs no more than that walk.
pub proof fn lemma_bound_prunes<
    F: Cost,
    Pos,
    G: Goal<F, Pos>,
    M: Movements<F, Pos>,
    W: Weighting<F>,
>(task: Task<F, Pos, G, M, W>)
    requires
        fair(task, 1),
        task.bound.value() > 0,
        F::representable(task.bound.value()),
    ensures
        (forall|path: Seq<Pos>, total: int|
            #[trigger] walk(task.movements, path, total) && path.first() == task.start
                && task.goal.reached(path.last()) ==> total > task.bound.value()) ==> search(
            task,
        ).result is NoPath || (search(task).result is Timeout && search(task).last.pushed
            == task.limit),
        forall|path: Seq<Pos>, total: int|
            #[trigger] walk(task.movements, path, total) && path.first() == task.start
                && task.goal.reached(path.last()) && total <= task.bound.value() ==> !(search(
                task,
            ).result is NoPath) && (search(task).result is Complete ==> search(task).arrived.cost
                <= total),
{
    lemma_search_guaranteed(task, 1);
    lemma_initial_coherent(task);
    lemma_initial_traced(task);
    lemma_run_sound(task, initial(task), turns(task));
    lemma_result_is_walk(task);
    let outcome = search(task);
    if outcome.result is Complete {
        assert(traced_node(task, outcome.last, outcome.arrived));
        assert(task.goal.estimate(outcome.arrived.pos) == 0);
        assert(outcome.arrived.cost <= task.bound.value());
        assert(walk(task.movements, outcome.result.path(), outcome.arrived.cost));
    }
    assert forall|path: Seq<Pos>, total: int|
        #[trigger] walk(task.movements, path, total) && path.first() == task.start
            && task.goal.reached(path.last()) && total <= task.bound.value() implies !(
    outcome.result is NoPath) && (outcome.result is Complete ==> outcome.arrived.cost
        <= total) by {
        lemma_walk_not_negative(task.movements, path, total);
        assert(total * 1 == total);
        assert(F::representable(total));
        assert(within(task, 1, total));
    }
}

} // verus!
