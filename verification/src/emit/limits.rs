//! Whether a description stays inside the limits that emission assumes:
//! an active-leaf count that fits a `u8` and deferred events whose
//! positions fit the 32-bit defer mask.

use vstd::prelude::*;

use crate::ir::{DeferDecl, EventObject, Ir, MachineObject};
use crate::region_layout::{capped, capped_leaves_region, leaves_region};
use crate::state_index::{build_state_index, spec_build};

use super::defer::{defers_states, event_index, spec_defers_fit, spec_defers_states, spec_event_index};
use super::{lemma_subs_fit_elem, spec_defers_of, spec_subs_fit, spec_tree_fits, spec_unit_fits};

verus! {

fn defers_fit(evs: &Vec<EventObject>, ds: &Vec<DeferDecl>) -> (r: bool)
    ensures
        r == spec_defers_fit(evs@, ds@),
{
    let mut i: usize = 0;
    while i < ds.len()
        invariant
            i <= ds.len(),
            forall|j: int| 0 <= j < i ==> ((#[trigger] spec_event_index(evs@, ds@[j].event_id@)) matches Some(k) ==> k < 32),
        decreases ds.len() - i,
    {
        let id = ds[i].event_id.as_str();
        assert(id@ == ds@[i as int].event_id@);
        let hit = event_index(evs, id);
        let ne = evs.len();
        assert(ne == evs@.len());
        if let Some(k) = hit {
            if k >= 32 {
                assert(spec_event_index(evs@, ds@[i as int].event_id@) == Some(k as int));
                return false;
            }
        }
        assert(spec_event_index(evs@, ds@[i as int].event_id@) matches Some(k) ==> k < 32);
        i += 1;
    }
    true
}

/// Whether machine `m` itself, without its submachine templates, fits the
/// limits of emission (a machine with more states than the index holds
/// fails on that count instead, so it passes here).
pub fn machine_unit_fits(m: &MachineObject) -> (r: bool)
    ensures
        r == spec_unit_fits(*m),
{
    let idx = match build_state_index(m) {
        Ok(x) => x,
        Err(_) => {
            return true;
        },
    };
    if capped_leaves_region(&m.root) > 255 {
        return false;
    }
    let n = idx.count();
    let mut i: usize = 1;
    while i < n
        invariant
            1 <= i <= n,
            n == idx@.len(),
            idx@ == spec_build(*m).recs,
            idx.wf(),
            leaves_region(m.root) <= 255,
            forall|j: int| 1 <= j < i ==> spec_defers_fit(m.events@, #[trigger] spec_defers_of(*m, idx@[j].ir_id)),
        decreases n - i,
    {
        assert(idx@[i as int].ir_id == idx.records@[i as int].ir_id@);
        let ok = match defers_states(&m.root.states, idx.records[i].ir_id.as_str()) {
            Some(ds) => defers_fit(&m.events, ds),
            None => {
                assert(spec_defers_of(*m, idx@[i as int].ir_id) =~= Seq::<DeferDecl>::empty());
                true
            },
        };
        if !ok {
            assert(!spec_defers_fit(m.events@, spec_defers_of(*m, idx@[i as int].ir_id)));
            return false;
        }
        i += 1;
    }
    true
}

/// Whether machine `m` and all its submachine templates fit the limits of
/// emission.
pub fn machine_fits_limits(m: &MachineObject) -> (r: bool)
    ensures
        r == spec_tree_fits(*m),
    decreases m,
{
    let subs = &m.submachines;
    let mut i: usize = 0;
    assert(subs@.take(0) =~= Seq::<MachineObject>::empty());
    while i < subs.len()
        invariant
            *subs == m.submachines,
            i <= subs.len(),
            spec_subs_fit(subs@.take(i as int)),
        decreases subs.len() - i,
    {
        assert(subs@.take(i + 1).drop_last() =~= subs@.take(i as int));
        assert(subs@.take(i + 1).last() == subs@[i as int]);
        if !machine_fits_limits(&subs[i]) {
            proof {
                if spec_subs_fit(subs@) {
                    lemma_subs_fit_elem(subs@, i as int);
                }
            }
            return false;
        }
        i += 1;
    }
    assert(subs@.take(i as int) =~= subs@);
    machine_unit_fits(m)
}

/// Whether every machine of `ir`, with its submachine templates, fits the
/// limits of emission: what `emit` asks of a description whose fallback
/// queue capacity is valid.
pub fn ir_fits_limits(ir: &Ir) -> (r: bool)
    ensures
        r == spec_subs_fit(ir.machines@),
{
    let ms = &ir.machines;
    let mut i: usize = 0;
    assert(ms@.take(0) =~= Seq::<MachineObject>::empty());
    while i < ms.len()
        invariant
            *ms == ir.machines,
            i <= ms.len(),
            spec_subs_fit(ms@.take(i as int)),
        decreases ms.len() - i,
    {
        assert(ms@.take(i + 1).drop_last() =~= ms@.take(i as int));
        assert(ms@.take(i + 1).last() == ms@[i as int]);
        if !machine_fits_limits(&ms[i]) {
            proof {
                if spec_subs_fit(ms@) {
                    lemma_subs_fit_elem(ms@, i as int);
                }
            }
            return false;
        }
        i += 1;
    }
    assert(ms@.take(i as int) =~= ms@);
    true
}

} // verus!
