//! Records whose links are handed out by a recycling pool.
//!
//! The link of every record lives in a reference-counted cell drawn from a
//! pool. When the records of a search are forgotten, the cells go back to
//! the pool, up to its size, and the next search draws them again instead of
//! asking the allocator. A search that needs more cells than the pool holds
//! gets the rest from the allocator: no record is ever dropped for want of
//! room.

use super::history::{chain, lemma_reverse_push, link, links_back, reversed, History, Record};
use vstd::prelude::*;

verus! {

/// `refpool::Pool`, the pool. Nothing is known of what is inside it.
#[verifier::external_type_specification]
#[verifier::external_body]
#[verifier::reject_recursive_types(A)]
pub struct ExPool<A>(refpool::Pool<A>);

/// `refpool::PoolRef`, a counted reference to a cell. What the cell holds
/// is named by `held`.
#[verifier::external_type_specification]
#[verifier::external_body]
#[verifier::reject_recursive_types(A)]
pub struct ExPoolRef<A>(refpool::PoolRef<A>);

/// The most cells that a pool is made to keep.
pub const POOL_CELLS_MAX: usize = 0x100_0000;

/// The link that a cell holds: what was written into it when it was made,
/// and what reading it gives. The cells of this module are never written to
/// again.
pub uninterp spec fn held(cell: refpool::PoolRef<Option<usize>>) -> Option<usize>;

/// `refpool::Pool::new`: a pool that keeps up to `cells` freed cells for
/// reuse. It reserves room for that many pointers at once, which is why the
/// number is limited. Nothing is claimed of the pool.
#[verifier::external_body]
pub(crate) fn pool_new(cells: usize) -> refpool::Pool<Option<usize>>
    requires
        cells <= POOL_CELLS_MAX,
{
    refpool::Pool::new(cells)
}

/// `refpool::PoolRef::new`: a cell from the pool, or from the allocator where
/// the pool has none left, with `value` written into it. The contract claims
/// that the cell holds the value that was handed in.
#[verifier::external_body]
pub(crate) fn cell_new(pool: &refpool::Pool<Option<usize>>, value: Option<usize>) -> (cell:
    refpool::PoolRef<Option<usize>>)
    ensures
        held(cell) == value,
{
    refpool::PoolRef::new(pool, value)
}

/// The `Deref` of `refpool::PoolRef`: reads what the cell holds.
#[verifier::external_body]
pub(crate) fn cell_get(cell: &refpool::PoolRef<Option<usize>>) -> (value: Option<usize>)
    ensures
        value == held(*cell),
{
    **cell
}

/// Records whose links live in cells of a pool.
pub struct PooledHistory<Pos> {
    pool: refpool::Pool<Option<usize>>,
    positions: Vec<Pos>,
    links: Vec<refpool::PoolRef<Option<usize>>>,
}

impl<Pos: Copy> PooledHistory<Pos> {
    /// An empty store over a pool that keeps up to `size` cells for reuse,
    /// or `POOL_CELLS_MAX` if `size` is more than that.
    pub fn with_pool_size(size: usize) -> (history: Self)
        ensures
            history.valid(),
            history.records() == Seq::<Record<Pos>>::empty(),
    {
        let cells = if size > POOL_CELLS_MAX {
            POOL_CELLS_MAX
        } else {
            size
        };
        let history = Self { pool: pool_new(cells), positions: Vec::new(), links: Vec::new() };
        assert(history.records() =~= Seq::<Record<Pos>>::empty());
        history
    }
}

impl<Pos: Copy> History<Pos> for PooledHistory<Pos> {
    closed spec fn records(&self) -> Seq<Record<Pos>> {
        Seq::new(
            self.positions@.len(),
            |i: int| (self.positions@[i], link(held(self.links@[i]))),
        )
    }

    closed spec fn valid(&self) -> bool {
        self.links@.len() == self.positions@.len() && links_back(self.records())
    }

    proof fn lemma_links_back(&self) {
    }

    /// Forgets every record; the cells go back to the pool.
    fn reset(&mut self) {
        self.positions.clear();
        self.links.clear();
        assert(self.records() =~= Seq::<Record<Pos>>::empty());
    }

    fn record(&mut self, pos: Pos, parent: Option<usize>) -> (id: usize) {
        let id = self.positions.len();
        let cell = cell_new(&self.pool, parent);
        self.positions.push(pos);
        self.links.push(cell);
        assert(self.records() =~= old(self).records().push((pos, link(parent))));
        id
    }

    fn path_to(&self, id: usize) -> (path: Vec<Pos>) {
        let mut trail: Vec<Pos> = Vec::new();
        let mut at: usize = id;
        loop
            invariant
                self.valid(),
                at <= id < self.records().len(),
                chain(self.records(), id as nat) == chain(self.records(), at as nat)
                    + trail@.reverse(),
            decreases at,
        {
            let pos = self.positions[at];
            let parent = cell_get(&self.links[at]);
            assert(self.records()[at as int] == (pos, link(parent)));
            proof {
                lemma_reverse_push(trail@, pos);
            }
            trail.push(pos);
            match parent {
                Some(p) => {
                    assert(chain(self.records(), id as nat) =~= chain(self.records(), p as nat)
                        + trail@.reverse());
                    at = p;
                },
                None => {
                    assert(chain(self.records(), id as nat) =~= trail@.reverse());
                    return reversed(&trail);
                },
            }
        }
    }
}

} // verus!
