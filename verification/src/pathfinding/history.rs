//! The record of expanded positions, from which a path is read back.
//!
//! Every expanded position is recorded once, together with the record of the
//! position it was reached from. A path is read by following those links back
//! to the record without a predecessor.

use vstd::prelude::*;

verus! {

/// A record: a position and the index of the record it was reached from.
pub type Record<Pos> = (Pos, Option<nat>);

/// A link as the executable code holds it, read as a number.
pub open spec fn link(parent: Option<usize>) -> Option<nat> {
    match parent {
        Some(p) => Some(p as nat),
        None => None,
    }
}

/// Every link points to an earlier record.
pub open spec fn links_back<Pos>(records: Seq<Record<Pos>>) -> bool {
    forall|i: int|
        0 <= i < records.len() ==> match (#[trigger] records[i]).1 {
            Some(p) => p < i,
            None => true,
        }
}

/// The positions from the first ancestor of record `id` down to `id` itself.
pub open spec fn chain<Pos>(records: Seq<Record<Pos>>, id: nat) -> Seq<Pos>
    decreases id,
{
    if id >= records.len() {
        Seq::empty()
    } else {
        match records[id as int].1 {
            Some(p) => if p < id {
                chain(records, p).push(records[id as int].0)
            } else {
                seq![records[id as int].0]
            },
            None => seq![records[id as int].0],
        }
    }
}

/// Every position of a chain is the position of a record no later than the
/// one that the chain leads to.
pub proof fn lemma_chain_of_records<Pos>(records: Seq<Record<Pos>>, id: nat, k: int)
    requires
        id < records.len(),
        0 <= k < chain(records, id).len(),
    ensures
        exists|j: int| 0 <= j <= id && (#[trigger] records[j]).0 == chain(records, id)[k],
    decreases id,
{
    let here = records[id as int];
    match here.1 {
        Some(p) => {
            if p < id {
                if k < chain(records, p).len() {
                    lemma_chain_of_records(records, p, k);
                    let j = choose|j: int|
                        0 <= j <= p && (#[trigger] records[j]).0 == chain(records, p)[k];
                    assert(records[j].0 == chain(records, id)[k]);
                } else {
                    assert(records[id as int].0 == chain(records, id)[k]);
                }
            } else {
                assert(records[id as int].0 == chain(records, id)[k]);
            }
        },
        None => {
            assert(records[id as int].0 == chain(records, id)[k]);
        },
    }
}

/// A store of records. The implementations differ in where the records live;
/// what can be read from them is the same.
pub trait History<Pos: Copy> {
    /// The records, in the order in which they were added.
    spec fn records(&self) -> Seq<Record<Pos>>;

    /// What the store needs to hold of its own representation.
    spec fn valid(&self) -> bool;

    /// In a valid store every link points to an earlier record.
    proof fn lemma_links_back(&self)
        requires
            self.valid(),
        ensures
            links_back(self.records()),
    ;

    /// Forgets every record.
    fn reset(&mut self)
        ensures
            final(self).valid(),
            final(self).records() == Seq::<Record<Pos>>::empty(),
    ;

    /// Adds a record and returns its index.
    fn record(&mut self, pos: Pos, parent: Option<usize>) -> (id: usize)
        requires
            old(self).valid(),
            parent matches Some(p) ==> p < old(self).records().len(),
        ensures
            final(self).valid(),
            id == old(self).records().len(),
            final(self).records() == old(self).records().push((pos, link(parent))),
    ;

    /// The positions from the first ancestor of record `id` down to `id`.
    fn path_to(&self, id: usize) -> (path: Vec<Pos>)
        requires
            self.valid(),
            id < self.records().len(),
        ensures
            path@ == chain(self.records(), id as nat),
    ;
}

/// The elements of `items` in the opposite order.
pub fn reversed<T: Copy>(items: &Vec<T>) -> (out: Vec<T>)
    ensures
        out@ == items@.reverse(),
{
    let mut out: Vec<T> = Vec::with_capacity(items.len());
    let mut left: usize = items.len();
    while left > 0
        invariant
            left <= items.len(),
            out@.len() == items.len() - left,
            forall|k: int| 0 <= k < out@.len() ==> out@[k] == items@[items.len() - 1 - k],
        decreases left,
    {
        left = left - 1;
        out.push(items[left]);
    }
    assert(out@ =~= items@.reverse());
    out
}

/// Reversing after adding an element puts that element first.
pub proof fn lemma_reverse_push<T>(items: Seq<T>, last: T)
    ensures
        items.push(last).reverse() == seq![last] + items.reverse(),
{
    assert(items.push(last).reverse() =~= seq![last] + items.reverse());
}

/// A stored record: a position and the index of its predecessor.
#[derive(Clone, Copy)]
pub struct Leaf<Pos> {
    pub pos: Pos,
    pub parent: Option<usize>,
}

impl<Pos> Leaf<Pos> {
    pub open spec fn view(self) -> Record<Pos> {
        (self.pos, link(self.parent))
    }
}

/// Records held side by side in one growable array and addressed by index.
pub struct IndexedHistory<Pos> {
    leaves: Vec<Leaf<Pos>>,
}

impl<Pos: Copy> IndexedHistory<Pos> {
    /// An empty store with room for `capacity` records before it has to grow.
    pub fn with_capacity(capacity: usize) -> (history: Self)
        ensures
            history.valid(),
            history.records() == Seq::<Record<Pos>>::empty(),
    {
        let history = Self { leaves: Vec::with_capacity(capacity) };
        assert(history.records() =~= Seq::<Record<Pos>>::empty());
        history
    }
}

impl<Pos: Copy> History<Pos> for IndexedHistory<Pos> {
    closed spec fn records(&self) -> Seq<Record<Pos>> {
        Seq::new(self.leaves@.len(), |i: int| self.leaves@[i].view())
    }

    closed spec fn valid(&self) -> bool {
        links_back(self.records())
    }

    proof fn lemma_links_back(&self) {
    }

    fn reset(&mut self) {
        self.leaves.clear();
        assert(self.records() =~= Seq::<Record<Pos>>::empty());
    }

    fn record(&mut self, pos: Pos, parent: Option<usize>) -> (id: usize) {
        let id = self.leaves.len();
        self.leaves.push(Leaf { pos, parent });
        assert(self.records() =~= old(self).records().push((pos, link(parent))));
        id
    }

    fn path_to(&self, id: usize) -> (path: Vec<Pos>) {
        let mut trail: Vec<Pos> = Vec::new();
        let mut at: usize = id;
        loop
            invariant
                self.valid(),
                at <= id < self.records().len(),
                chain(self.records(), id as nat) == chain(self.records(), at as nat)
                    + trail@.reverse(),
            decreases at,
        {
            let leaf = self.leaves[at];
            assert(self.records()[at as int] == leaf.view());
            proof {
                lemma_reverse_push(trail@, leaf.pos);
            }
            trail.push(leaf.pos);
            match leaf.parent {
                Some(p) => {
                    assert(chain(self.records(), id as nat) =~= chain(self.records(), p as nat)
                        + trail@.reverse());
                    at = p;
                },
                None => {
                    assert(chain(self.records(), id as nat) =~= trail@.reverse());
                    return reversed(&trail);
                },
            }
        }
    }
}

} // verus!
