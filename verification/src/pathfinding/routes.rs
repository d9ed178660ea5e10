//! Walks through the graph, and the proof that every path a search hands
//! back is one: it starts at the start, each of its steps is an edge that the
//! movements offer, and its cost is the cost that the search kept for it.

use super::history::{chain, lemma_chain_of_records};
use super::model::{
    admits, coherent, expanded, first, improves, initial, is_first, lemma_initial_coherent,
    lemma_relax_one_coherent, lemma_taken_coherent, relax_from, relax_one, route, run, search,
    step, successor, turns, Candidate, Outcome, Relaxed, SearchState, Step, Task,
};
use super::weighting::Weighting;
use super::{Goal, Movements, PathResult};
use crate::cost::Cost;
use super::model::before;
use vstd::multiset::Multiset;
use vstd::prelude::*;

verus! {

/// The movements offer a step from `from` to `to` at cost `cost`.
pub open spec fn has_edge<F: Cost, Pos, M: Movements<F, Pos>>(
    movements: M,
    from: Pos,
    to: Pos,
    cost: int,
) -> bool {
    exists|i: int|
        0 <= i < movements.edges(from).len() && #[trigger] movements.edges(from)[i] == (to, cost)
}

/// `path` is a walk: it holds at least one position, each position after the
/// first is reached from the one before it by an edge, and the costs of those
/// edges add up to `cost`.
pub open spec fn walk<F: Cost, Pos, M: Movements<F, Pos>>(
    movements: M,
    path: Seq<Pos>,
    cost: int,
) -> bool
    decreases path.len(),
{
    if path.len() == 0 {
        false
    } else if path.len() == 1 {
        cost == 0
    } else {
        exists|last: int| #[trigger]
            has_edge(movements, path[path.len() - 2], path.last(), last) && walk(
                movements,
                path.drop_last(),
                cost - last,
            )
    }
}

/// `path` is a walk at some cost.
pub open spec fn connected<F: Cost, Pos, M: Movements<F, Pos>>(movements: M, path: Seq<Pos>) -> bool {
    exists|cost: int| walk(movements, path, cost)
}

/// A walk that is continued by an edge is a walk.
pub proof fn lemma_walk_push<F: Cost, Pos, M: Movements<F, Pos>>(
    movements: M,
    path: Seq<Pos>,
    cost: int,
    to: Pos,
    step_cost: int,
)
    requires
        walk(movements, path, cost),
        has_edge(movements, path.last(), to, step_cost),
    ensures
        walk(movements, path.push(to), cost + step_cost),
{
    let longer = path.push(to);
    assert(longer.drop_last() =~= path);
    assert(longer[longer.len() - 2] == path.last());
    assert(has_edge(movements, longer[longer.len() - 2], longer.last(), step_cost) && walk(
        movements,
        longer.drop_last(),
        cost + step_cost - step_cost,
    ));
}

/// The node was generated by an edge out of the record that it links to and
/// admitted, or is the start; and it carries the goal's estimate for its
/// position.
pub open spec fn traced_node<F: Cost, Pos, G: Goal<F, Pos>, M: Movements<F, Pos>, W: Weighting<F>>(
    task: Task<F, Pos, G, M, W>,
    state: SearchState<Pos>,
    node: Candidate<Pos>,
) -> bool {
    &&& node.estimate == task.goal.estimate(node.pos)
    &&& match node.parent {
        Some(p) => p < state.history.len() && has_edge(
            task.movements,
            state.history[p as int].0,
            node.pos,
            node.cost - state.costs[p as int],
        ) && admits(task, node.cost, node.estimate),
        None => node.pos == task.start && node.cost == 0,
    }
}

/// The record was made of a node that was generated by an edge out of the
/// record that it links to, or of the start.
pub open spec fn traced_record<
    F: Cost,
    Pos,
    G: Goal<F, Pos>,
    M: Movements<F, Pos>,
    W: Weighting<F>,
>(task: Task<F, Pos, G, M, W>, state: SearchState<Pos>, id: int) -> bool {
    match state.history[id].1 {
        Some(p) => p < id && has_edge(
            task.movements,
            state.history[p as int].0,
            state.history[id].0,
            state.costs[id] - state.costs[p as int],
        ),
        None => state.history[id].0 == task.start && state.costs[id] == 0,
    }
}

/// What every state of a search satisfies, as far as its paths go: records
/// and nodes are joined to their predecessors by edges, the expanded
/// positions are those of the records, no position has two records, no
/// record is of a position that the goal accepts, and no node or record has
/// a smaller estimate than the most promising node.
pub open spec fn traced<F: Cost, Pos, G: Goal<F, Pos>, M: Movements<F, Pos>, W: Weighting<F>>(
    task: Task<F, Pos, G, M, W>,
    state: SearchState<Pos>,
) -> bool {
    &&& state.costs.len() == state.history.len()
    &&& forall|id: int| 0 <= id < state.history.len() ==> traced_record(task, state, id)
    &&& forall|node: Candidate<Pos>| #[trigger]
        state.queue.count(node) > 0 ==> traced_node(task, state, node)
    &&& traced_node(task, state, state.best)
    &&& forall|id: int|
        0 <= id < state.history.len() ==> state.closed.contains((#[trigger] state.history[id]).0)
    &&& forall|pos: Pos|
        state.closed.contains(pos) ==> exists|id: int|
            0 <= id < state.history.len() && (#[trigger] state.history[id]).0 == pos
    &&& forall|i: int, j: int|
        0 <= i < j < state.history.len() ==> (#[trigger] state.history[i]).0 != (
        #[trigger] state.history[j]).0
    &&& forall|id: int|
        0 <= id < state.history.len() ==> !task.goal.reached((#[trigger] state.history[id]).0)
    &&& state.best.estimate <= task.goal.estimate(task.start)
    &&& forall|node: Candidate<Pos>| #[trigger]
        state.queue.count(node) > 0 ==> state.best.estimate <= node.estimate
    &&& forall|id: int|
        0 <= id < state.history.len() ==> state.best.estimate <= task.goal.estimate(
            (#[trigger] state.history[id]).0,
        )
}

/// The chain of a record is a walk from the start at the record's cost.
pub proof fn lemma_chain_walks<
    F: Cost,
    Pos,
    G: Goal<F, Pos>,
    M: Movements<F, Pos>,
    W: Weighting<F>,
>(task: Task<F, Pos, G, M, W>, state: SearchState<Pos>, id: nat)
    requires
        traced(task, state),
        id < state.history.len(),
    ensures
        walk(task.movements, chain(state.history, id), state.costs[id as int]),
        chain(state.history, id).first() == task.start,
        chain(state.history, id).last() == state.history[id as int].0,
    decreases id,
{
    assert(traced_record(task, state, id as int));
    match state.history[id as int].1 {
        Some(p) => {
            lemma_chain_walks(task, state, p);
            lemma_walk_push(
                task.movements,
                chain(state.history, p),
                state.costs[p as int],
                state.history[id as int].0,
                state.costs[id as int] - state.costs[p as int],
            );
        },
        None => {},
    }
}

/// The route of a node is a walk from the start to the node at its cost.
pub proof fn lemma_route_walks<
    F: Cost,
    Pos,
    G: Goal<F, Pos>,
    M: Movements<F, Pos>,
    W: Weighting<F>,
>(task: Task<F, Pos, G, M, W>, state: SearchState<Pos>, node: Candidate<Pos>)
    requires
        traced(task, state),
        traced_node(task, state, node),
    ensures
        walk(task.movements, route(state.history, node), node.cost),
        route(state.history, node).first() == task.start,
        route(state.history, node).last() == node.pos,
{
    match node.parent {
        Some(p) => {
            lemma_chain_walks(task, state, p);
            lemma_walk_push(
                task.movements,
                chain(state.history, p),
                state.costs[p as int],
                node.pos,
                node.cost - state.costs[p as int],
            );
        },
        None => {},
    }
}

/// The start state is traced.
pub proof fn lemma_initial_traced<
    F: Cost,
    Pos,
    G: Goal<F, Pos>,
    M: Movements<F, Pos>,
    W: Weighting<F>,
>(task: Task<F, Pos, G, M, W>)
    ensures
        traced(task, initial(task)),
{
    broadcast use vstd::multiset::group_multiset_axioms;
}

/// Taking a node off the queue keeps the state traced.
pub proof fn lemma_taken_traced<
    F: Cost,
    Pos,
    G: Goal<F, Pos>,
    M: Movements<F, Pos>,
    W: Weighting<F>,
>(task: Task<F, Pos, G, M, W>, state: SearchState<Pos>, node: Candidate<Pos>)
    requires
        traced(task, state),
        state.queue.count(node) > 0,
    ensures
        traced(task, SearchState { queue: state.queue.remove(node), ..state }),
{
    broadcast use vstd::multiset::group_multiset_axioms;

    let taken = SearchState { queue: state.queue.remove(node), ..state };
    assert forall|other: Candidate<Pos>| #[trigger] taken.queue.count(other) > 0 implies traced_node(
        task,
        taken,
        other,
    ) by {
        assert(state.queue.count(other) > 0);
        assert(traced_node(task, state, other));
    }
    assert(traced_node(task, state, state.best));
    assert forall|id: int| 0 <= id < taken.history.len() implies traced_record(task, taken, id) by {
        assert(traced_record(task, state, id));
    }
}

/// Expanding a node whose position is not expanded yet keeps the state
/// traced.
pub proof fn lemma_expanded_traced<
    F: Cost,
    Pos,
    G: Goal<F, Pos>,
    M: Movements<F, Pos>,
    W: Weighting<F>,
>(task: Task<F, Pos, G, M, W>, state: SearchState<Pos>, node: Candidate<Pos>)
    requires
        traced(task, state),
        state.queue.count(node) > 0,
        !state.closed.contains(node.pos),
        !task.goal.reached(node.pos),
    ensures
        traced(task, expanded(state, node)),
{
    broadcast use vstd::multiset::group_multiset_axioms;

    let after = expanded(state, node);
    let new_id = state.history.len() as int;
    assert(traced_node(task, state, node));
    assert forall|id: int| 0 <= id < after.history.len() implies traced_record(task, after, id) by {
        if id < new_id {
            assert(traced_record(task, state, id));
        }
    }
    assert forall|other: Candidate<Pos>| #[trigger] after.queue.count(other) > 0 implies traced_node(
        task,
        after,
        other,
    ) by {
        assert(state.queue.count(other) > 0);
        assert(traced_node(task, state, other));
    }
    assert(traced_node(task, state, state.best));
    assert forall|pos: Pos| after.closed.contains(pos) implies exists|id: int|
        0 <= id < after.history.len() && (#[trigger] after.history[id]).0 == pos by {
        if pos == node.pos {
            assert(after.history[new_id].0 == pos);
        } else {
            assert(state.closed.contains(pos));
            let id = choose|id: int|
                0 <= id < state.history.len() && (#[trigger] state.history[id]).0 == pos;
            assert(after.history[id].0 == pos);
        }
    }
    assert forall|i: int, j: int| 0 <= i < j < after.history.len() implies (
    #[trigger] after.history[i]).0 != (#[trigger] after.history[j]).0 by {
        if j == new_id {
            assert(state.closed.contains(state.history[i].0));
        } else {
            assert(state.history[i].0 != state.history[j].0);
        }
    }
    assert forall|id: int| 0 <= id < after.history.len() implies after.closed.contains(
        (#[trigger] after.history[id]).0,
    ) by {
        if id < new_id {
            assert(state.closed.contains(state.history[id].0));
        }
    }
}

/// Looking at one edge out of a record's position keeps the state traced.
pub proof fn lemma_relax_one_traced<
    F: Cost,
    Pos,
    G: Goal<F, Pos>,
    M: Movements<F, Pos>,
    W: Weighting<F>,
>(
    task: Task<F, Pos, G, M, W>,
    state: SearchState<Pos>,
    parent: nat,
    edges: Seq<(Pos, int)>,
    at: int,
)
    requires
        traced(task, state),
        parent < state.history.len(),
        edges == task.movements.edges(state.history[parent as int].0),
        0 <= at < edges.len(),
    ensures
        match relax_one(task, state, parent, state.costs[parent as int], edges[at]) {
            Relaxed::Next(next) => traced(task, next),
            Relaxed::OutOfBudget(last) => last == state,
        },
{
    broadcast use vstd::multiset::group_multiset_axioms;

    let parent_cost = state.costs[parent as int];
    if improves(task, state, parent_cost, edges[at]) && state.pushed < task.limit {
        let node = successor(task, state, parent, parent_cost, edges[at]);
        let next = relax_one(task, state, parent, parent_cost, edges[at])->Next_0;
        assert(task.movements.edges(state.history[parent as int].0)[at] == (node.pos, edges[at].1));
        assert(traced_node(task, state, node));
        assert forall|other: Candidate<Pos>| #[trigger] next.queue.count(other) > 0 implies traced_node(
            task,
            next,
            other,
        ) by {
            if other != node {
                assert(state.queue.count(other) > 0);
                assert(traced_node(task, state, other));
            }
        }
        assert(traced_node(task, state, state.best));
        assert forall|id: int| 0 <= id < next.history.len() implies traced_record(task, next, id) by {
            assert(traced_record(task, state, id));
        }
    }
}

/// A queue that is not empty has a node that leaves first.
pub proof fn lemma_has_first<Pos>(queue: Multiset<Candidate<Pos>>)
    requires
        queue.len() > 0,
    ensures
        is_first(queue, first(queue)),
    decreases queue.len(),
{
    broadcast use vstd::multiset::group_multiset_axioms;

    let any = queue.choose();
    let rest = queue.remove(any);
    if rest.len() == 0 {
        assert(rest =~= Multiset::empty()) by {
            vstd::multiset::lemma_multiset_empty_len(rest);
        }
        assert forall|other: Candidate<Pos>| queue.count(other) > 0 implies !before(other, any) by {
            if other != any {
                assert(rest.count(other) == queue.count(other));
            }
        }
        assert(is_first(queue, any));
    } else {
        lemma_has_first(rest);
        let least = first(rest);
        if before(any, least) {
            assert forall|other: Candidate<Pos>| queue.count(other) > 0 implies !before(
                other,
                any,
            ) by {
                if other != any {
                    assert(rest.count(other) > 0);
                    assert(!before(other, least));
                }
            }
            assert(is_first(queue, any));
        } else {
            assert forall|other: Candidate<Pos>| queue.count(other) > 0 implies !before(
                other,
                least,
            ) by {
                if other != any {
                    assert(rest.count(other) > 0);
                }
            }
            assert(is_first(queue, least));
        }
    }
}

/// What holds of every state of a search.
pub open spec fn sound<F: Cost, Pos, G: Goal<F, Pos>, M: Movements<F, Pos>, W: Weighting<F>>(
    task: Task<F, Pos, G, M, W>,
    state: SearchState<Pos>,
) -> bool {
    coherent(task, state) && traced(task, state)
}

/// The node that the search arrived at has the smallest estimate of all that
/// it has seen: of the start, of the positions it expanded and of the nodes
/// that still wait.
pub open spec fn nearest<F: Cost, Pos, G: Goal<F, Pos>, M: Movements<F, Pos>, W: Weighting<F>>(
    task: Task<F, Pos, G, M, W>,
    outcome: Outcome<Pos>,
) -> bool {
    &&& outcome.arrived.estimate == task.goal.estimate(outcome.arrived.pos)
    &&& outcome.arrived.estimate <= task.goal.estimate(task.start)
    &&& forall|pos: Pos| #[trigger]
        outcome.last.closed.contains(pos) ==> outcome.arrived.estimate <= task.goal.estimate(pos)
    &&& forall|node: Candidate<Pos>| #[trigger]
        outcome.last.queue.count(node) > 0 ==> outcome.arrived.estimate <= node.estimate
}

/// What holds of the end of every search: the path of the result is the
/// route of the node arrived at, which is a goal where the result says so.
pub open spec fn arrives<F: Cost, Pos, G: Goal<F, Pos>, M: Movements<F, Pos>, W: Weighting<F>>(
    task: Task<F, Pos, G, M, W>,
    outcome: Outcome<Pos>,
) -> bool {
    &&& sound(task, outcome.last)
    &&& traced_node(task, outcome.last, outcome.arrived)
    &&& outcome.last.best.estimate <= task.goal.estimate(task.start)
    &&& outcome.result is Timeout ==> outcome.last.pushed == task.limit
    &&& match outcome.result {
        PathResult::Complete(path) => path == route(outcome.last.history, outcome.arrived)
            && task.goal.reached(outcome.arrived.pos),
        PathResult::Timeout(path) => path == route(outcome.last.history, outcome.arrived)
            && outcome.arrived == outcome.last.best,
        PathResult::NoPath(path) => path == route(outcome.last.history, outcome.arrived)
            && outcome.arrived == outcome.last.best,
        PathResult::Partial(_) => false,
    }
}

/// Looking at the edges out of a record's position keeps the state sound.
pub proof fn lemma_relax_from_sound<
    F: Cost,
    Pos,
    G: Goal<F, Pos>,
    M: Movements<F, Pos>,
    W: Weighting<F>,
>(
    task: Task<F, Pos, G, M, W>,
    state: SearchState<Pos>,
    parent: nat,
    edges: Seq<(Pos, int)>,
    from: int,
)
    requires
        sound(task, state),
        parent < state.history.len(),
        edges == task.movements.edges(state.history[parent as int].0),
        0 <= from,
    ensures
        match relax_from(task, state, parent, state.costs[parent as int], edges, from) {
            Relaxed::Next(next) => sound(task, next),
            Relaxed::OutOfBudget(last) => sound(task, last) && last.pushed == task.limit,
        },
    decreases edges.len() - from,
{
    if from < edges.len() {
        let parent_cost = state.costs[parent as int];
        lemma_relax_one_coherent(task, state, parent, parent_cost, edges[from]);
        lemma_relax_one_traced(task, state, parent, edges, from);
        match relax_one(task, state, parent, parent_cost, edges[from]) {
            Relaxed::Next(next) => {
                lemma_relax_from_sound(task, next, parent, edges, from + 1);
            },
            Relaxed::OutOfBudget(last) => {},
        }
    }
}

/// One turn of the main loop keeps the state sound, and where it ends the
/// search, it ends it as `arrives` says.
pub proof fn lemma_step_sound<
    F: Cost,
    Pos,
    G: Goal<F, Pos>,
    M: Movements<F, Pos>,
    W: Weighting<F>,
>(task: Task<F, Pos, G, M, W>, state: SearchState<Pos>)
    requires
        sound(task, state),
        state.queue.len() > 0,
    ensures
        match step(task, state) {
            Step::Continue(next) => sound(task, next),
            Step::Done(outcome) => arrives(task, outcome),
        },
{
    lemma_has_first(state.queue);
    let node = first(state.queue);
    lemma_taken_coherent(task, state, node);
    lemma_taken_traced(task, state, node);
    if state.closed.contains(node.pos) {
    } else if task.goal.reached(node.pos) {
        assert(traced_node(task, state, node));
    } else {
        lemma_expanded_traced(task, state, node);
        let after = expanded(state, node);
        lemma_relax_from_sound(
            task,
            after,
            state.history.len(),
            task.movements.edges(node.pos),
            0,
        );
    }
}

/// Every search ends as `arrives` says.
pub proof fn lemma_run_sound<
    F: Cost,
    Pos,
    G: Goal<F, Pos>,
    M: Movements<F, Pos>,
    W: Weighting<F>,
>(task: Task<F, Pos, G, M, W>, state: SearchState<Pos>, turns: nat)
    requires
        sound(task, state),
    ensures
        arrives(task, run(task, state, turns)),
    decreases turns,
{
    if state.queue.len() == 0 || turns == 0 {
    } else {
        lemma_step_sound(task, state);
        match step(task, state) {
            Step::Continue(next) => {
                lemma_run_sound(task, next, (turns - 1) as nat);
            },
            Step::Done(outcome) => {},
        }
    }
}

/// The path that a search hands back starts at the start, goes along edges
/// that the movements offer, and costs what the search kept as the cost of
/// the node it leads to. Where the result is `Complete`, the path ends at a
/// position that the goal accepts. No result is `Partial`.
pub proof fn lemma_result_is_walk<
    F: Cost,
    Pos,
    G: Goal<F, Pos>,
    M: Movements<F, Pos>,
    W: Weighting<F>,
>(task: Task<F, Pos, G, M, W>)
    ensures
        walk(task.movements, search(task).result.path(), search(task).arrived.cost),
        search(task).result.path().first() == task.start,
        search(task).result.path().last() == search(task).arrived.pos,
        search(task).result is Complete ==> task.goal.reached(search(task).result.path().last()),
        !(search(task).result is Partial),
{
    lemma_initial_coherent(task);
    lemma_initial_traced(task);
    lemma_run_sound(task, initial(task), turns(task));
    let outcome = search(task);
    lemma_route_walks(task, outcome.last, outcome.arrived);
}

/// Where a search ends without a complete path, its path leads to the most
/// promising node it has seen: no position that it expanded and no node that
/// still waits has a smaller estimate.
pub proof fn lemma_best_effort_is_nearest<
    F: Cost,
    Pos,
    G: Goal<F, Pos>,
    M: Movements<F, Pos>,
    W: Weighting<F>,
>(task: Task<F, Pos, G, M, W>)
    ensures
        !(search(task).result is Complete) ==> nearest(task, search(task)),
{
    lemma_initial_coherent(task);
    lemma_initial_traced(task);
    lemma_run_sound(task, initial(task), turns(task));
    let outcome = search(task);
    if !(outcome.result is Complete) {
        assert forall|pos: Pos| outcome.last.closed.contains(pos) implies outcome.arrived.estimate
            <= task.goal.estimate(pos) by {
            let id = choose|id: int|
                0 <= id < outcome.last.history.len() && (#[trigger] outcome.last.history[id]).0
                    == pos;
        }
    }
}

/// No position of `path` but the last is one that the goal accepts.
pub open spec fn goal_only_at_end<F: Cost, Pos, G: Goal<F, Pos>>(goal: G, path: Seq<Pos>) -> bool {
    forall|i: int| 0 <= i < path.len() - 1 ==> !goal.reached(#[trigger] path[i])
}

/// A search stops at the first position that the goal accepts: no position
/// of its path but the last is such a position.
pub proof fn lemma_goal_only_at_end<
    F: Cost,
    Pos,
    G: Goal<F, Pos>,
    M: Movements<F, Pos>,
    W: Weighting<F>,
>(task: Task<F, Pos, G, M, W>)
    ensures
        goal_only_at_end(task.goal, search(task).result.path()),
{
    lemma_initial_coherent(task);
    lemma_initial_traced(task);
    lemma_run_sound(task, initial(task), turns(task));
    let outcome = search(task);
    let path = outcome.result.path();
    assert(path == route(outcome.last.history, outcome.arrived));
    assert forall|i: int| 0 <= i < path.len() - 1 implies !task.goal.reached(#[trigger] path[i]) by {
        let p = outcome.arrived.parent->Some_0;
        lemma_chain_of_records(outcome.last.history, p, i);
        let j = choose|j: int|
            0 <= j <= p && (#[trigger] outcome.last.history[j]).0 == chain(
                outcome.last.history,
                p,
            )[i];
        assert(!task.goal.reached(outcome.last.history[j].0));
    }
}

/// A search ends with `Timeout` only when it has generated as many nodes as
/// its limit allows.
pub proof fn lemma_timeout_means_limit_reached<
    F: Cost,
    Pos,
    G: Goal<F, Pos>,
    M: Movements<F, Pos>,
    W: Weighting<F>,
>(task: Task<F, Pos, G, M, W>)
    ensures
        search(task).result is Timeout ==> search(task).last.pushed == task.limit,
{
    lemma_initial_coherent(task);
    lemma_initial_traced(task);
    lemma_run_sound(task, initial(task), turns(task));
}

/// No position is expanded twice: the records that a search leaves behind
/// are of different positions, and these are the positions it has closed.
pub proof fn lemma_expanded_once<
    F: Cost,
    Pos,
    G: Goal<F, Pos>,
    M: Movements<F, Pos>,
    W: Weighting<F>,
>(task: Task<F, Pos, G, M, W>)
    ensures
        forall|i: int, j: int|
            0 <= i < j < search(task).last.history.len() ==> (
            #[trigger] search(task).last.history[i]).0 != (#[trigger] search(task).last.history[j]).0,
        forall|pos: Pos|
            search(task).last.closed.contains(pos) <==> exists|id: int|
                0 <= id < search(task).last.history.len() && (
                #[trigger] search(task).last.history[id]).0 == pos,
{
    lemma_initial_coherent(task);
    lemma_initial_traced(task);
    lemma_run_sound(task, initial(task), turns(task));
}

} // verus!
