//! Parent-pointer table: one entry per state index, walked leaf-to-root
//! by the dispatch loop.

use vstd::prelude::*;

use crate::state_index::{ROOT_SENTINEL, StateIndex};

verus! {

/// Parent values per state index. `parents[0]` is the root sentinel,
/// its own parent.
#[derive(Debug)]
pub struct ParentTable {
    pub parents: Vec<u8>,
}

/// A parent table whose walks always reach the root: entry 0 is its own
/// parent and every other entry points strictly backwards.
pub open spec fn parents_wf(p: Seq<u8>) -> bool {
    &&& 1 <= p.len()
    &&& p[0] == 0
    &&& forall|i: int| 1 <= i < p.len() ==> (#[trigger] p[i] as int) < i
}

impl ParentTable {
    pub open spec fn wf(&self) -> bool {
        parents_wf(self.parents@)
    }

    /// Parent of `id`, if `id` is in the table.
    pub fn parent(&self, id: u8) -> (r: Option<u8>)
        ensures
            r == (if (id as int) < self.parents@.len() {
                Some(self.parents@[id as int])
            } else {
                None
            }),
    {
        if (id as usize) < self.parents.len() {
            Some(self.parents[id as usize])
        } else {
            None
        }
    }

    /// Whether `id` is the root sentinel.
    pub fn is_root(&self, id: u8) -> (r: bool)
        ensures
            r == (id == ROOT_SENTINEL),
    {
        id == ROOT_SENTINEL
    }
}

/// Build the parent table of an index: entry `i` is record `i`'s parent.
/// A well-formed index gives a well-formed table.
pub fn build_parent_table(index: &StateIndex) -> (r: ParentTable)
    ensures
        r.parents@.len() == index@.len(),
        forall|i: int| 0 <= i < index@.len() ==> r.parents@[i] as int == #[trigger] index@[i].parent,
        index.wf() ==> r.wf(),
{
    let mut parents: Vec<u8> = Vec::new();
    let mut i: usize = 0;
    while i < index.records.len()
        invariant
            i <= index.records.len(),
            parents@.len() == i,
            forall|j: int| 0 <= j < i ==> parents@[j] as int == #[trigger] index@[j].parent,
        decreases index.records.len() - i,
    {
        parents.push(index.records[i].parent);
        i += 1;
    }
    let r = ParentTable { parents };
    proof {
        if index.wf() {
            assert forall|j: int| 1 <= j < r.parents@.len() implies (#[trigger] r.parents@[j] as int) < j by {
                assert(r.parents@[j] as int == index@[j].parent);
            }
        }
    }
    r
}

} // verus!
