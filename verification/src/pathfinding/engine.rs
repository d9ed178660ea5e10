//! The search itself: the frontier, and the loop that expands it.

use super::heap::MinHeap;
use super::history::{History, Record};
use super::model::{
    coherent, expanded, first, improves, initial, lemma_first_is, lemma_initial_coherent,
    lemma_relax_one_coherent, lemma_taken_coherent, origin, relax_from, relax_one, route, run,
    search, step, successor, Candidate, Outcome, Relaxed, SearchState, Step, Task,
};
use super::optimality::{fair, guaranteed, lemma_search_guaranteed};
use super::routes::{
    connected, goal_only_at_end, lemma_best_effort_is_nearest, lemma_expanded_once,
    lemma_goal_only_at_end, lemma_initial_traced, lemma_result_is_walk, lemma_route_walks,
    lemma_step_sound, lemma_timeout_means_limit_reached, nearest, sound, walk,
};
use super::weighting::Weighting;
use super::{AStarT, Goal, Movements, Node, PathResult};
use crate::cost::Cost;
use std::collections::{HashMap, HashSet};
use std::hash::Hash;
use vstd::multiset::Multiset;
use vstd::prelude::*;
use vstd::std_specs::hash::obeys_key_model;

verus! {

/// How far a search may go.
#[derive(Clone, Copy, Debug)]
pub struct Limits<F> {
    /// Nodes whose cost and estimate add up to more than this are dropped.
    /// Zero stands for no bound.
    pub cost_bound: F,
    /// How many nodes a search may generate besides the start before it
    /// gives up with `Timeout`.
    pub node_limit: usize,
}

impl<F: Cost> Limits<F> {
    /// No bound on the cost, and no limit on the nodes short of what the
    /// machine can count.
    pub fn none() -> (limits: Self)
        ensures
            limits.cost_bound.value() == 0,
            limits.node_limit == usize::MAX,
    {
        Limits { cost_bound: F::zero(), node_limit: usize::MAX }
    }
}

/// What holds of every search, whatever it is asked.
///
/// The path of its result starts at the start, follows edges that the
/// movements offer, and costs what the search kept as the cost of the node
/// that it leads to. No position of the path but the last is one that the
/// goal accepts. A complete path ends where the goal is reached, and any
/// other leads to the node with the smallest estimate that the search has
/// seen. `Timeout` comes only when the limit on nodes is used up, and
/// `Partial` never. Where the search is fair for some weight, the result is
/// as good as `guaranteed` says for that weight.
pub open spec fn upheld<F: Cost, Pos, G: Goal<F, Pos>, M: Movements<F, Pos>, W: Weighting<F>>(
    task: Task<F, Pos, G, M, W>,
) -> bool {
    let outcome = search(task);
    let path = outcome.result.path();
    &&& walk(task.movements, path, outcome.arrived.cost)
    &&& path.first() == task.start
    &&& path.last() == outcome.arrived.pos
    &&& goal_only_at_end(task.goal, path)
    &&& outcome.result is Complete ==> task.goal.reached(path.last())
    &&& !(outcome.result is Complete) ==> nearest(task, outcome)
    &&& outcome.result is Timeout ==> outcome.last.pushed == task.limit
    &&& !(outcome.result is Partial)
    &&& visits_once(outcome.last.history)
    &&& forall|weight: int| #[trigger] fair(task, weight) ==> guaranteed(task, weight, outcome)
}

/// Every search upholds what `upheld` says.
pub proof fn lemma_search_upheld<
    F: Cost,
    Pos,
    G: Goal<F, Pos>,
    M: Movements<F, Pos>,
    W: Weighting<F>,
>(task: Task<F, Pos, G, M, W>)
    ensures
        upheld(task),
{
    lemma_result_is_walk(task);
    lemma_expanded_once(task);
    lemma_best_effort_is_nearest(task);
    lemma_goal_only_at_end(task);
    lemma_timeout_means_limit_reached(task);
    assert forall|weight: int| #[trigger] fair(task, weight) implies guaranteed(
        task,
        weight,
        search(task),
    ) by {
        lemma_search_guaranteed(task, weight);
    }
}

/// What a search promises of its result: it is that of `search`, a function
/// of the arguments alone, of which `upheld` holds.
pub open spec fn answers<F: Cost, Pos, G: Goal<F, Pos>, M: Movements<F, Pos>, W: Weighting<F>>(
    task: Task<F, Pos, G, M, W>,
    result: PathResult<Vec<Pos>>,
) -> bool {
    result@ == search(task).result && upheld(task)
}

/// Two results that answer the same question are the same, whatever the
/// engines that gave them had been used for before: a search is
/// deterministic, and an engine that is used again answers as a new one
/// does.
pub proof fn lemma_same_question_same_answer<
    F: Cost,
    Pos,
    G: Goal<F, Pos>,
    M: Movements<F, Pos>,
    W: Weighting<F>,
>(task: Task<F, Pos, G, M, W>, first: PathResult<Vec<Pos>>, second: PathResult<Vec<Pos>>)
    requires
        answers(task, first),
        answers(task, second),
    ensures
        first@ == second@,
{
}

/// What a search with these arguments is asked to do.
pub open spec fn task_of<F: Cost, Pos, G: Goal<F, Pos>, M: Movements<F, Pos>, W: Weighting<F>>(
    start: Pos,
    goal: &G,
    movements: &M,
    policy: &W,
    limits: Limits<F>,
) -> Task<F, Pos, G, M, W> {
    Task {
        start,
        goal: *goal,
        movements: *movements,
        policy: *policy,
        bound: limits.cost_bound,
        limit: limits.node_limit as nat,
    }
}

/// No position has two records.
pub open spec fn visits_once<Pos>(records: Seq<Record<Pos>>) -> bool {
    forall|i: int, j: int|
        0 <= i < j < records.len() ==> (#[trigger] records[i]).0 != (#[trigger] records[j]).0
}

/// The open and closed sets of a search, and what the search keeps beside
/// them. They are made anew at the start of every search and left as they
/// are at its end.
pub struct Frontier<F, Pos> {
    closed: HashSet<Pos>,
    heap: MinHeap<F, Pos>,
    open: HashMap<Pos, F>,
    best: Option<Node<F, Pos, AStarT<F>>>,
    pushed: usize,
    costs: Ghost<Seq<int>>,
}

/// The path from the start to `node`.
fn path_of<F: Cost, Pos: Copy, H: History<Pos>>(history: &H, node: &Node<F, Pos, AStarT<F>>) -> (path:
    Vec<Pos>)
    requires
        history.valid(),
        node.t.parent matches Some(p) ==> p < history.records().len(),
    ensures
        path@ == route(history.records(), node@),
{
    match node.t.parent {
        Some(p) => {
            let mut path = history.path_to(p);
            path.push(node.pos);
            path
        },
        None => {
            let mut path: Vec<Pos> = Vec::new();
            path.push(node.pos);
            assert(path@ =~= seq![node.pos]);
            path
        },
    }
}

impl<F: Cost, Pos: Copy + Hash + Eq> Frontier<F, Pos> {
    /// The smallest cost at which each position waits.
    pub closed spec fn open_costs(&self) -> Map<Pos, int> {
        Map::new(|pos: Pos| self.open@.contains_key(pos), |pos: Pos| self.open@[pos].value())
    }

    /// The positions that have been expanded.
    pub closed spec fn expanded_positions(&self) -> Set<Pos> {
        self.closed@
    }

    /// The nodes that wait.
    pub closed spec fn queue(&self) -> Multiset<Candidate<Pos>> {
        self.heap@
    }

    /// The node with the smallest estimate that the search has seen.
    pub closed spec fn most_promising(&self) -> Candidate<Pos> {
        match self.best {
            Some(node) => node@,
            None => arbitrary(),
        }
    }

    /// How many nodes the search has generated besides the start.
    pub closed spec fn generated(&self) -> nat {
        self.pushed as nat
    }

    /// The cost at which each record's position was expanded.
    pub closed spec fn expansion_costs(&self) -> Seq<int> {
        self.costs@
    }

    /// What the representation needs to hold of itself.
    pub closed spec fn valid(&self) -> bool {
        self.heap.valid()
    }

    /// The state of the search that holds this frontier and these records.
    pub open spec fn state(&self, records: Seq<Record<Pos>>) -> SearchState<Pos> {
        SearchState {
            open: self.open_costs(),
            closed: self.expanded_positions(),
            queue: self.queue(),
            history: records,
            costs: self.expansion_costs(),
            best: self.most_promising(),
            pushed: self.generated(),
        }
    }

    /// The frontier holds the open and closed sets and the queue of `state`.
    pub open spec fn holds(&self, state: SearchState<Pos>) -> bool {
        &&& self.open_costs() == state.open
        &&& self.expanded_positions() == state.closed
        &&& self.queue() == state.queue
    }

    /// Nothing waits and nothing is expanded.
    pub open spec fn is_empty(&self) -> bool {
        &&& self.open_costs() == Map::<Pos, int>::empty()
        &&& self.expanded_positions() == Set::<Pos>::empty()
        &&& self.queue() == Multiset::<Candidate<Pos>>::empty()
    }

    /// No search has been begun since the frontier was made or emptied: no
    /// node counts as generated, none is remembered as the most promising,
    /// and no cost of an expansion is kept.
    pub closed spec fn is_fresh(&self) -> bool {
        &&& self.best is None
        &&& self.pushed == 0
        &&& self.costs@ == Seq::<int>::empty()
    }

    /// The frontier is that of a search for `task` which has been begun and
    /// has not ended: going on from here leads to what `search` says.
    pub closed spec fn on_course<G: Goal<F, Pos>, M: Movements<F, Pos>, W: Weighting<F>>(
        &self,
        task: Task<F, Pos, G, M, W>,
        records: Seq<Record<Pos>>,
    ) -> bool {
        &&& self.valid()
        &&& self.best is Some
        &&& sound(task, self.state(records))
        &&& run(task, self.state(records), self.turns_left(task)) == search(task)
    }

    /// An upper bound on the turns that the search can still take: the nodes
    /// that wait and the nodes that may yet be generated.
    pub closed spec fn turns_left<G: Goal<F, Pos>, M: Movements<F, Pos>, W: Weighting<F>>(
        &self,
        task: Task<F, Pos, G, M, W>,
    ) -> nat {
        (self.queue().len() + task.limit - self.pushed) as nat
    }

    /// How many positions wait, how many are expanded, and how many nodes
    /// are in the queue.
    pub fn sizes(&self) -> (counts: (usize, usize, usize))
        requires
            obeys_key_model::<Pos>(),
        ensures
            counts.0 == self.open_costs().len(),
            counts.1 == self.expanded_positions().len(),
            counts.2 == self.queue().len(),
    {
        broadcast use vstd::std_specs::hash::group_hash_axioms;

        proof {
            assert(self.open_costs().dom() =~= self.open@.dom());
        }
        (self.open.len(), self.closed.len(), self.heap.len())
    }

    /// An empty frontier.
    pub fn new() -> (frontier: Self)
        ensures
            frontier.valid(),
            frontier.is_empty(),
            frontier.is_fresh(),
    {
        let frontier = Self {
            closed: HashSet::new(),
            heap: MinHeap::new(),
            open: HashMap::new(),
            best: None,
            pushed: 0,
            costs: Ghost(Seq::empty()),
        };
        assert(frontier.open_costs() =~= Map::<Pos, int>::empty());
        frontier
    }

    /// Empties the frontier: nothing waits, nothing is expanded, no node has
    /// been generated and none is remembered as the most promising.
    pub fn clear(&mut self)
        ensures
            final(self).valid(),
            final(self).is_empty(),
            final(self).is_fresh(),
    {
        self.closed.clear();
        self.open.clear();
        self.heap.clear();
        self.best = None;
        self.pushed = 0;
        self.costs = Ghost(Seq::empty());
        assert(self.open_costs() =~= Map::<Pos, int>::empty());
    }

    /// Decides whether the edge to `pos` leads to a node that enters the
    /// frontier, and works out that node's priority, cost and estimate.
    fn weigh<G: Goal<F, Pos>, M: Movements<F, Pos>, W: Weighting<F>>(
        &self,
        goal: &G,
        policy: &W,
        bound: F,
        parent_cost: F,
        pos: Pos,
        step_cost: F,
        Ghost(task): Ghost<Task<F, Pos, G, M, W>>,
        Ghost(state): Ghost<SearchState<Pos>>,
    ) -> (weighed: Option<(F, F, F)>)
        requires
            obeys_key_model::<Pos>(),
            task.goal == *goal,
            task.policy == *policy,
            task.bound == bound,
            state.open == self.open_costs(),
            state.closed == self.expanded_positions(),
        ensures
            weighed.is_some() == improves(task, state, parent_cost.value(), (pos, step_cost.value())),
            weighed matches Some((key, cost, estimate)) ==> {
                &&& cost.value() == parent_cost.value() + step_cost.value()
                &&& estimate.value() == task.goal.estimate(pos)
                &&& key.value() == task.policy.priority(cost.value(), estimate.value())
            },
    {
        broadcast use vstd::std_specs::hash::group_hash_axioms;

        if self.closed.contains(&pos) {
            return None;
        }
        let cost = match parent_cost.checked_sum(step_cost) {
            Some(cost) => cost,
            None => {
                return None;
            },
        };
        let estimate = goal.heuristic(&pos);
        let total = match cost.checked_sum(estimate) {
            Some(total) => total,
            None => {
                return None;
            },
        };
        let bounded = bound.less(F::zero()) || F::zero().less(bound);
        if bounded && bound.less(total) {
            return None;
        }
        let key = match policy.combine(cost, estimate) {
            Some(key) => key,
            None => {
                return None;
            },
        };
        match self.open.get(&pos) {
            Some(known) => {
                if !cost.less(*known) {
                    return None;
                }
            },
            None => {},
        }
        Some((key, cost, estimate))
    }

    /// Searches for a way from `start` to a position that `goal` accepts.
    ///
    /// The frontier and the history are emptied first, so nothing of an
    /// earlier search can be seen in the result, which depends on the
    /// arguments alone. Afterwards the history holds one record for each
    /// position that was expanded, and they stay until the next search.
    pub fn search<G: Goal<F, Pos>, M: Movements<F, Pos>, W: Weighting<F>, H: History<Pos>>(
        &mut self,
        history: &mut H,
        start: Pos,
        goal: &G,
        movements: &M,
        policy: &W,
        limits: Limits<F>,
    ) -> (result: PathResult<Vec<Pos>>)
        requires
            obeys_key_model::<Pos>(),
        ensures
            answers(task_of(start, goal, movements, policy, limits), result),
            final(self).valid(),
            final(history).valid(),
            final(history).records() == search(
                task_of(start, goal, movements, policy, limits),
            ).last.history,
            final(self).holds(search(task_of(start, goal, movements, policy, limits)).last),
            visits_once(final(history).records()),
            result@.path().len() > 0,
            connected(*movements, result@.path()),
    {
        let ghost task = task_of(start, goal, movements, policy, limits);
        self.begin(history, start, goal, movements, policy, limits);
        loop
            invariant
                obeys_key_model::<Pos>(),
                task == task_of(start, goal, movements, policy, limits),
                history.valid(),
                self.on_course(task, history.records()),
            decreases self.turns_left(task),
        {
            match self.turn(history, start, goal, movements, policy, limits) {
                Some(result) => {
                    return result;
                },
                None => {},
            }
        }
    }

    /// Begins a search: empties the frontier and the history and lets the
    /// start wait alone. The search is then carried on by `turn`, turn by
    /// turn, until a turn ends it or the caller does, by `last_turn` or by
    /// `give_up`.
    pub fn begin<G: Goal<F, Pos>, M: Movements<F, Pos>, W: Weighting<F>, H: History<Pos>>(
        &mut self,
        history: &mut H,
        start: Pos,
        goal: &G,
        movements: &M,
        policy: &W,
        limits: Limits<F>,
    )
        requires
            obeys_key_model::<Pos>(),
        ensures
            final(history).valid(),
            final(history).records() == Seq::<Record<Pos>>::empty(),
            final(self).on_course(
                task_of(start, goal, movements, policy, limits),
                final(history).records(),
            ),
            final(self).state(final(history).records()) == initial(
                task_of(start, goal, movements, policy, limits),
            ),
    {
        broadcast use vstd::std_specs::hash::group_hash_axioms;
        broadcast use vstd::multiset::group_multiset_axioms;

        let ghost task = task_of(start, goal, movements, policy, limits);
        self.closed.clear();
        self.open.clear();
        self.heap.clear();
        history.reset();
        let estimate = goal.heuristic(&start);
        let root = Node {
            f: estimate,
            pos: start,
            t: AStarT { g: F::zero(), h: estimate, seq: 0, parent: None },
        };
        self.heap.push(root);
        self.best = Some(root);
        self.pushed = 0;
        self.costs = Ghost(Seq::empty());
        proof {
            assert(root@ == origin(task));
            assert(self.open_costs() =~= Map::<Pos, int>::empty());
            assert(self.queue() =~= Multiset::singleton(origin(task)));
            assert(self.state(history.records()) == initial(task));
            lemma_initial_coherent(task);
            lemma_initial_traced(task);
        }
    }

    /// Ends a search that has been begun, before a turn has ended it: the
    /// result is `Timeout` with the path to the most promising node.
    pub fn give_up<G: Goal<F, Pos>, M: Movements<F, Pos>, W: Weighting<F>, H: History<Pos>>(
        &self,
        history: &H,
        start: Pos,
        goal: &G,
        movements: &M,
        policy: &W,
        limits: Limits<F>,
    ) -> (result: PathResult<Vec<Pos>>)
        requires
            history.valid(),
            self.on_course(task_of(start, goal, movements, policy, limits), history.records()),
        ensures
            result@ == PathResult::Timeout(route(history.records(), self.most_promising())),
            walk(*movements, result@.path(), self.most_promising().cost),
            connected(*movements, result@.path()),
            result@.path().first() == start,
            result@.path().last() == self.most_promising().pos,
    {
        let ghost task = task_of(start, goal, movements, policy, limits);
        proof {
            lemma_route_walks(task, self.state(history.records()), self.most_promising());
        }
        match &self.best {
            Some(best) => PathResult::Timeout(path_of(history, best)),
            None => {
                proof {
                    assert(false);
                }
                PathResult::Timeout(Vec::new())
            },
        }
    }

    /// Ends a search that has been begun, for a caller whose time is up,
    /// without losing a goal that is next in line: takes the first node off
    /// the queue, and where its position is not expanded yet and the goal
    /// accepts it, ends the search with `Complete`, as going on would have;
    /// else it ends the search with `Timeout` and the path to the most
    /// promising node. Where no node waits, the search ends with `NoPath`.
    pub fn last_turn<G: Goal<F, Pos>, M: Movements<F, Pos>, W: Weighting<F>, H: History<Pos>>(
        &mut self,
        history: &H,
        start: Pos,
        goal: &G,
        movements: &M,
        policy: &W,
        limits: Limits<F>,
    ) -> (result: PathResult<Vec<Pos>>)
        requires
            obeys_key_model::<Pos>(),
            history.valid(),
            old(self).on_course(task_of(start, goal, movements, policy, limits), history.records()),
        ensures
            final(self).valid(),
            old(self).queue().len() == 0 || (!old(self).expanded_positions().contains(
                first(old(self).queue()).pos,
            ) && goal.reached(first(old(self).queue()).pos)) ==> answers(
                task_of(start, goal, movements, policy, limits),
                result,
            ),
            old(self).queue().len() > 0 && (old(self).expanded_positions().contains(
                first(old(self).queue()).pos,
            ) || !goal.reached(first(old(self).queue()).pos)) ==> result@ == PathResult::Timeout(
                route(history.records(), old(self).most_promising()),
            ),
            result@.path().len() > 0,
            result@.path().first() == start,
            connected(*movements, result@.path()),
    {
        broadcast use vstd::std_specs::hash::group_hash_axioms;
        broadcast use vstd::multiset::group_multiset_axioms;

        let ghost task = task_of(start, goal, movements, policy, limits);
        let ghost before_turn = self.state(history.records());
        proof {
            lemma_search_upheld(task);
            assert(walk(*movements, search(task).result.path(), search(task).arrived.cost));
            lemma_route_walks(task, before_turn, before_turn.best);
        }
        let best = match self.best {
            Some(best) => best,
            None => {
                proof {
                    assert(false);
                }
                return PathResult::Timeout(Vec::new());
            },
        };
        let node = match self.heap.pop() {
            Some(node) => node,
            None => {
                return PathResult::NoPath(path_of(history, &best));
            },
        };
        proof {
            lemma_first_is(before_turn.queue, node@);
            lemma_taken_coherent(task, before_turn, node@);
        }
        if !self.closed.contains(&node.pos) && goal.is_reached(&node.pos) {
            PathResult::Complete(path_of(history, &node))
        } else {
            PathResult::Timeout(path_of(history, &best))
        }
    }

    /// One turn of a search that has been begun: takes the first node off
    /// the queue; drops it if its position is expanded already; ends the
    /// search with `Complete` if it is a goal; else expands it, and ends the
    /// search with `Timeout` if that takes more nodes than the limit allows.
    /// Where no node waits, the search ends with `NoPath`.
    ///
    /// `None` says that the search is still on course; it can go on for
    /// fewer turns than before.
    pub fn turn<G: Goal<F, Pos>, M: Movements<F, Pos>, W: Weighting<F>, H: History<Pos>>(
        &mut self,
        history: &mut H,
        start: Pos,
        goal: &G,
        movements: &M,
        policy: &W,
        limits: Limits<F>,
    ) -> (ended: Option<PathResult<Vec<Pos>>>)
        requires
            obeys_key_model::<Pos>(),
            old(history).valid(),
            old(self).on_course(
                task_of(start, goal, movements, policy, limits),
                old(history).records(),
            ),
        ensures
            final(self).valid(),
            final(history).valid(),
            match ended {
                Some(result) => {
                    &&& answers(task_of(start, goal, movements, policy, limits), result)
                    &&& final(history).records() == search(
                        task_of(start, goal, movements, policy, limits),
                    ).last.history
                    &&& final(self).holds(
                        search(task_of(start, goal, movements, policy, limits)).last,
                    )
                    &&& visits_once(final(history).records())
                    &&& result@.path().len() > 0
                    &&& connected(*movements, result@.path())
                },
                None => {
                    &&& final(self).on_course(
                        task_of(start, goal, movements, policy, limits),
                        final(history).records(),
                    )
                    &&& step(
                        task_of(start, goal, movements, policy, limits),
                        old(self).state(old(history).records()),
                    ) == Step::Continue(final(self).state(final(history).records()))
                    &&& final(self).turns_left(task_of(start, goal, movements, policy, limits))
                        < old(self).turns_left(task_of(start, goal, movements, policy, limits))
                },
            },
    {
        broadcast use vstd::std_specs::hash::group_hash_axioms;
        broadcast use vstd::multiset::group_multiset_axioms;

        let ghost task = task_of(start, goal, movements, policy, limits);
        let bound = limits.cost_bound;
        let limit = limits.node_limit;
        let ghost before_turn = self.state(history.records());
        let ghost fuel = self.turns_left(task);
        proof {
            lemma_search_upheld(task);
            assert(walk(*movements, search(task).result.path(), search(task).arrived.cost));
        }
        let mut best = match self.best {
            Some(best) => best,
            None => {
                proof {
                    assert(false);
                }
                return None;
            },
        };
        let node = match self.heap.pop() {
            Some(node) => node,
            None => {
                return Some(PathResult::NoPath(path_of(history, &best)));
            },
        };
        proof {
            lemma_first_is(before_turn.queue, node@);
            lemma_taken_coherent(task, before_turn, node@);
            lemma_step_sound(task, before_turn);
            assert(fuel > 0);
        }
        if self.closed.contains(&node.pos) {
            proof {
                assert(step(task, before_turn) == Step::Continue(self.state(history.records())));
            }
            return None;
        }
        if goal.is_reached(&node.pos) {
            return Some(PathResult::Complete(path_of(history, &node)));
        }
        self.open.remove(&node.pos);
        self.closed.insert(node.pos);
        let id = history.record(node.pos, node.t.parent);
        proof {
            self.costs@ = self.costs@.push(node.t.g.value());
            assert(self.open_costs() =~= before_turn.open.remove(node.pos));
            assert(self.state(history.records()) == expanded(before_turn, node@));
        }
        let neighbors = movements.get_neighbors(node.pos);
        let ghost edges = task.movements.edges(node.pos);
        let ghost whole = relax_from(
            task,
            expanded(before_turn, node@),
            id as nat,
            node.t.g.value(),
            edges,
            0,
        );
        let mut at: usize = 0;
        while at < neighbors.len()
            invariant
                obeys_key_model::<Pos>(),
                task == task_of(start, goal, movements, policy, limits),
                bound == limits.cost_bound,
                limit == limits.node_limit,
                self.valid(),
                history.valid(),
                self.best == Some(best),
                self.pushed <= limit,
                at <= neighbors.len(),
                neighbors@.len() == edges.len(),
                forall|i: int|
                    0 <= i < neighbors@.len() ==> (#[trigger] neighbors@[i]).0 == edges[i].0
                        && neighbors@[i].1.value() == edges[i].1,
                id < history.records().len(),
                history.records().len() == before_turn.history.len() + 1,
                fuel == before_turn.queue.len() + limit - before_turn.pushed,
                before_turn.queue.len() > 0,
                self.queue().len() - self.pushed == before_turn.queue.len() - 1
                    - before_turn.pushed,
                coherent(task, self.state(history.records())),
                relax_from(
                    task,
                    self.state(history.records()),
                    id as nat,
                    node.t.g.value(),
                    edges,
                    at as int,
                ) == whole,
                step(task, before_turn) == (match whole {
                    Relaxed::Next(next) => Step::Continue(next),
                    Relaxed::OutOfBudget(last) => Step::Done(
                        Outcome {
                            result: PathResult::Timeout(route(last.history, last.best)),
                            arrived: last.best,
                            last,
                        },
                    ),
                }),
                run(task, before_turn, fuel) == search(task),
                upheld(task),
            decreases neighbors.len() - at,
        {
            let ghost now = self.state(history.records());
            let (pos, step_cost) = neighbors[at];
            proof {
                lemma_relax_one_coherent(task, now, id as nat, node.t.g.value(), edges[at as int]);
            }
            match self.weigh::<G, M, W>(
                goal,
                policy,
                bound,
                node.t.g,
                pos,
                step_cost,
                Ghost(task),
                Ghost(now),
            ) {
                None => {},
                Some((key, cost, estimate)) => {
                    if self.pushed == limit {
                        proof {
                            assert(whole == Relaxed::OutOfBudget(now));
                        }
                        return Some(PathResult::Timeout(path_of(history, &best)));
                    }
                    self.pushed = self.pushed + 1;
                    self.open.insert(pos, cost);
                    let entry = Node {
                        f: key,
                        pos,
                        t: AStarT { g: cost, h: estimate, seq: self.pushed, parent: Some(id) },
                    };
                    if estimate.less(best.t.h) {
                        best = entry;
                        self.best = Some(entry);
                    }
                    self.heap.push(entry);
                    proof {
                        assert(entry@ == successor(
                            task,
                            now,
                            id as nat,
                            node.t.g.value(),
                            edges[at as int],
                        ));
                        assert(self.open_costs() =~= now.open.insert(pos, cost.value()));
                        assert(relax_one(task, now, id as nat, node.t.g.value(), edges[at as int])
                            == Relaxed::Next(self.state(history.records())));
                    }
                },
            }
            at = at + 1;
        }
        None
    }
}

} // verus!
