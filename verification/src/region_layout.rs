//! Region layout: assigns each state index an `_active[]` slot and sizes
//! the `_active[]` array.
//!
//! Slot 0 is the singleton, non-parallel path. A parallel state at slot
//! `s` places its region `j` at `s` plus the leaf counts of regions
//! `0..j`: the first region shares the parallel's slot and the regions
//! never overlap, so every slot stays below the `_active[]` size.
//!
//! Walking the tree depth first, each region after the first of a
//! parallel thus takes the next slot not used by the regions before it:
//! for a parallel with regions `A` and `B` whose region `A` holds a
//! two-region parallel with regions `C` and `D`, the slots are `A = 0`,
//! `C = 0`, `D = 1` and `B = 2`. Two parallels that are never active
//! together (siblings in one region, or in different states of it) reuse
//! the same slots, so the array is as large as the largest number of
//! simultaneously active leaves and no larger.

use vstd::prelude::*;

use crate::ir::{MachineObject, RegionObject, StateNode, node_id, spec_node_id};
use crate::state_index::{RecordView, StateIndex, spec_lookup, lemma_lookup_range};

verus! {

/// Per-state slot assignment.
#[derive(Debug)]
pub struct RegionLayout {
    /// `slot_of[i]` is the `_active[]` slot of state index `i`.
    pub slot_of: Vec<u8>,
    /// Number of `_active[]` slots the machine needs; at least 1.
    pub max_parallel_regions: u8,
}

impl RegionLayout {
    /// The slot of state index `i` (0 when out of range).
    pub open spec fn spec_slot(&self, i: int) -> u8 {
        if 0 <= i < self.slot_of@.len() {
            self.slot_of@[i]
        } else {
            0
        }
    }

    /// Slot the live leaf for `state_idx` is stored in (0 when the index is
    /// out of range).
    pub fn slot(&self, state_idx: u8) -> (r: u8)
        ensures
            r == self.spec_slot(state_idx as int),
    {
        if (state_idx as usize) < self.slot_of.len() {
            self.slot_of[state_idx as usize]
        } else {
            0
        }
    }
}

/// Record `slot` for the state with id `id`, when it is indexed.
pub open spec fn slot_mark(m: Seq<u8>, id: Seq<char>, slot: u8, idx: Seq<RecordView>) -> Seq<u8> {
    match spec_lookup(idx, id) {
        Some(i) => m.update(i, slot),
        None => m,
    }
}

/// Assign slots to a vertex and its subtree, the vertex sitting at `my_slot`.
pub open spec fn slot_node(m: Seq<u8>, s: StateNode, my_slot: u8, idx: Seq<RecordView>) -> Seq<u8>
    decreases s,
{
    let m1 = slot_mark(m, spec_node_id(s), my_slot, idx);
    match s {
        StateNode::Composite(c) => slot_regions_same(m1, c.regions@, my_slot, idx),
        StateNode::Parallel(p) => slot_regions_par(m1, p.regions@, my_slot, idx),
        _ => m1,
    }
}

/// All regions share `slot` (the regions of a composite).
pub open spec fn slot_regions_same(m: Seq<u8>, rs: Seq<RegionObject>, slot: u8, idx: Seq<RecordView>) -> Seq<u8>
    decreases rs,
{
    if rs.len() == 0 {
        m
    } else {
        slot_states(slot_regions_same(m, rs.drop_last(), slot, idx), rs.last().states@, slot, idx)
    }
}

/// The regions of a parallel at `my_slot`: region `j` starts at
/// `my_slot` plus the leaf counts of the regions before it, so the first
/// shares the parallel's slot and the slots of the regions never overlap.
pub open spec fn slot_regions_par(m: Seq<u8>, rs: Seq<RegionObject>, my_slot: u8, idx: Seq<RecordView>) -> Seq<u8>
    decreases rs,
{
    if rs.len() == 0 {
        m
    } else {
        slot_states(
            slot_regions_par(m, rs.drop_last(), my_slot, idx),
            rs.last().states@,
            (my_slot + sum_regions(rs.drop_last())) as u8,
            idx,
        )
    }
}

pub open spec fn slot_states(m: Seq<u8>, ss: Seq<StateNode>, slot: u8, idx: Seq<RecordView>) -> Seq<u8>
    decreases ss,
{
    if ss.len() == 0 {
        m
    } else {
        slot_node(slot_states(m, ss.drop_last(), slot, idx), ss.last(), slot, idx)
    }
}

/// The slot assignment of a whole machine, starting from all-zero slots.
pub open spec fn spec_slot_layout(machine: MachineObject, idx: Seq<RecordView>) -> Seq<u8> {
    slot_states(Seq::new(idx.len(), |_i: int| 0u8), machine.root.states@, 0, idx)
}

/// Every slot is below `b`.
pub open spec fn slots_below(m: Seq<u8>, b: nat) -> bool {
    forall|i: int| 0 <= i < m.len() ==> (#[trigger] m[i] as nat) < b
}

/// Maximum number of simultaneously active leaves below a vertex.
pub open spec fn leaves_node(s: StateNode) -> nat
    decreases s,
{
    match s {
        StateNode::Simple(_) | StateNode::Final(_) | StateNode::Submachine(_) => 1,
        StateNode::Composite(c) => if c.regions@.len() == 0 {
            1
        } else {
            max_regions(c.regions@)
        },
        StateNode::Parallel(p) => {
            let t = sum_regions(p.regions@);
            if t >= 1 {
                t
            } else {
                1
            }
        },
        _ => 0,
    }
}

/// A region's count: the largest count among its states, at least 1.
pub open spec fn leaves_region(r: RegionObject) -> nat
    decreases r,
{
    let t = max_states(r.states@);
    if t >= 1 {
        t
    } else {
        1
    }
}

pub open spec fn max_states(ss: Seq<StateNode>) -> nat
    decreases ss,
{
    if ss.len() == 0 {
        0
    } else {
        let a = max_states(ss.drop_last());
        let b = leaves_node(ss.last());
        if b > a {
            b
        } else {
            a
        }
    }
}

pub open spec fn max_regions(rs: Seq<RegionObject>) -> nat
    decreases rs,
{
    if rs.len() == 0 {
        0
    } else {
        let a = max_regions(rs.drop_last());
        let b = leaves_region(rs.last());
        if b > a {
            b
        } else {
            a
        }
    }
}

pub open spec fn sum_regions(rs: Seq<RegionObject>) -> nat
    decreases rs,
{
    if rs.len() == 0 {
        0
    } else {
        sum_regions(rs.drop_last()) + leaves_region(rs.last())
    }
}

/// Maximum number of simultaneously active leaves in a region: the
/// largest count among its states (a leaf counts 1, a composite the
/// largest of its regions, a parallel the sum of its regions; pseudo-states
/// 0), and at least 1.
pub fn compute_max_active_leaves(region: &RegionObject) -> (r: u8)
    requires
        leaves_region(*region) <= 255,
    ensures
        r == leaves_region(*region),
    decreases region,
{
    let mut best: u8 = 1;
    let mut i: usize = 0;
    assert(region.states@.take(0) =~= Seq::<StateNode>::empty());
    while i < region.states.len()
        invariant
            i <= region.states.len(),
            leaves_region(*region) <= 255,
            best == (if max_states(region.states@.take(i as int)) >= 1 {
                max_states(region.states@.take(i as int))
            } else {
                1
            }),
            forall|j: int| 0 <= j < i ==> leaves_node(#[trigger] region.states@[j]) <= max_states(region.states@.take(i as int)),
            max_states(region.states@.take(i as int)) <= max_states(region.states@),
        decreases region.states.len() - i,
    {
        let ghost pre = region.states@.take(i as int);
        assert(region.states@.take(i + 1).drop_last() =~= pre);
        proof {
            lemma_max_states_prefix(region.states@, i as int + 1);
        }
        let n = state_max_active_leaves(&region.states[i]);
        if n > best {
            best = n;
        }
        i += 1;
    }
    assert(region.states@.take(i as int) =~= region.states@);
    best
}

proof fn lemma_max_states_prefix(ss: Seq<StateNode>, k: int)
    requires
        0 <= k <= ss.len(),
    ensures
        max_states(ss.take(k)) <= max_states(ss),
        k >= 1 ==> leaves_node(ss[k - 1]) <= max_states(ss),
    decreases ss.len(),
{
    if ss.len() > 0 {
        if k == ss.len() {
            assert(ss.take(k) =~= ss);
            assert(ss[k - 1] == ss.last());
        } else {
            lemma_max_states_prefix(ss.drop_last(), k);
            assert(ss.drop_last().take(k) =~= ss.take(k));
            if k >= 1 {
                assert(ss.drop_last()[k - 1] == ss[k - 1]);
            }
        }
    } else {
        assert(ss.take(k) =~= ss);
    }
}

proof fn lemma_max_regions_prefix(rs: Seq<RegionObject>, k: int)
    requires
        0 <= k <= rs.len(),
    ensures
        max_regions(rs.take(k)) <= max_regions(rs),
    decreases rs.len() - k,
{
    if k < rs.len() {
        lemma_max_regions_prefix(rs, k + 1);
        assert(rs.take(k + 1).drop_last() =~= rs.take(k));
    } else {
        assert(rs.take(k) =~= rs);
    }
}

proof fn lemma_sum_regions_prefix(rs: Seq<RegionObject>, k: int)
    requires
        0 <= k <= rs.len(),
    ensures
        sum_regions(rs.take(k)) <= sum_regions(rs),
    decreases rs.len() - k,
{
    if k < rs.len() {
        lemma_sum_regions_prefix(rs, k + 1);
        assert(rs.take(k + 1).drop_last() =~= rs.take(k));
    } else {
        assert(rs.take(k) =~= rs);
    }
}

/// Maximum number of simultaneously active leaves below one vertex.
fn state_max_active_leaves(state: &StateNode) -> (r: u8)
    requires
        leaves_node(*state) <= 255,
    ensures
        r == leaves_node(*state),
    decreases state,
{
    match state {
        StateNode::Simple(_) | StateNode::Final(_) | StateNode::Submachine(_) => 1,
        StateNode::Composite(c) => {
            if c.regions.len() == 0 {
                1
            } else {
                max_over_regions(&c.regions)
            }
        },
        StateNode::Parallel(p) => {
            let total = sum_over_regions(&p.regions);
            if total >= 1 {
                total
            } else {
                1
            }
        },
        _ => 0,
    }
}


/// The largest region count.
fn max_over_regions(rs: &Vec<RegionObject>) -> (r: u8)
    requires
        max_regions(rs@) <= 255,
    ensures
        r == max_regions(rs@),
    decreases rs,
{
    let mut best: u8 = 0;
    let mut i: usize = 0;
    assert(rs@.take(0) =~= Seq::<RegionObject>::empty());
    while i < rs.len()
        invariant
            i <= rs.len(),
            max_regions(rs@) <= 255,
            best == max_regions(rs@.take(i as int)),
        decreases rs.len() - i,
    {
        assert(rs@.take(i + 1).drop_last() =~= rs@.take(i as int));
        proof {
            lemma_max_regions_prefix(rs@, i as int + 1);
            assert(leaves_region(rs@[i as int]) <= max_regions(rs@.take(i + 1)));
        }
        let n = compute_max_active_leaves(&rs[i]);
        if n > best {
            best = n;
        }
        i += 1;
    }
    assert(rs@.take(i as int) =~= rs@);
    best
}

/// The sum of the region counts.
fn sum_over_regions(rs: &Vec<RegionObject>) -> (r: u8)
    requires
        sum_regions(rs@) <= 255,
    ensures
        r == sum_regions(rs@),
    decreases rs,
{
    let mut total: u8 = 0;
    let mut i: usize = 0;
    assert(rs@.take(0) =~= Seq::<RegionObject>::empty());
    while i < rs.len()
        invariant
            i <= rs.len(),
            sum_regions(rs@) <= 255,
            total == sum_regions(rs@.take(i as int)),
        decreases rs.len() - i,
    {
        assert(rs@.take(i + 1).drop_last() =~= rs@.take(i as int));
        proof {
            lemma_sum_regions_prefix(rs@, i as int + 1);
        }
        let n = compute_max_active_leaves(&rs[i]);
        total = total + n;
        i += 1;
    }
    assert(rs@.take(i as int) =~= rs@);
    total
}


proof fn lemma_max_regions_elem(rs: Seq<RegionObject>, k: int)
    requires
        0 <= k < rs.len(),
    ensures
        leaves_region(rs[k]) <= max_regions(rs),
    decreases rs.len(),
{
    if k < rs.len() - 1 {
        lemma_max_regions_elem(rs.drop_last(), k);
    }
}

proof fn lemma_sum_regions_step(rs: Seq<RegionObject>, k: int)
    requires
        0 <= k < rs.len(),
    ensures
        sum_regions(rs.take(k)) + leaves_region(rs[k]) == sum_regions(rs.take(k + 1)),
        sum_regions(rs.take(k + 1)) <= sum_regions(rs),
{
    assert(rs.take(k + 1).drop_last() =~= rs.take(k));
    lemma_sum_regions_prefix(rs, k + 1);
}

/// Slot assignment keeps the table length, and keeps every slot below a
/// bound `b` when the subtree fits below `b` from its starting slot.
pub proof fn lemma_slot_node(m: Seq<u8>, s: StateNode, slot: u8, idx: Seq<RecordView>, b: nat)
    requires
        m.len() == idx.len(),
        b <= 256,
    ensures
        slot_node(m, s, slot, idx).len() == m.len(),
        slots_below(m, b) && (slot as nat) < b && slot + leaves_node(s) <= b ==> slots_below(slot_node(m, s, slot, idx), b),
    decreases s,
{
    lemma_lookup_range(idx, spec_node_id(s));
    let m1 = slot_mark(m, spec_node_id(s), slot, idx);
    assert(slots_below(m, b) && (slot as nat) < b ==> slots_below(m1, b));
    match s {
        StateNode::Composite(c) => {
            lemma_slot_same(m1, c.regions@, slot, idx, b);
        },
        StateNode::Parallel(p) => {
            lemma_slot_par(m1, p.regions@, slot, idx, b);
        },
        _ => {},
    }
}

pub proof fn lemma_slot_same(m: Seq<u8>, rs: Seq<RegionObject>, slot: u8, idx: Seq<RecordView>, b: nat)
    requires
        m.len() == idx.len(),
        b <= 256,
    ensures
        slot_regions_same(m, rs, slot, idx).len() == m.len(),
        slots_below(m, b) && (slot as nat) < b && slot + max_regions(rs) <= b ==> slots_below(slot_regions_same(m, rs, slot, idx), b),
    decreases rs,
{
    if rs.len() > 0 {
        lemma_slot_same(m, rs.drop_last(), slot, idx, b);
        let m0 = slot_regions_same(m, rs.drop_last(), slot, idx);
        lemma_slot_states(m0, rs.last().states@, slot, idx, b);
        lemma_max_regions_elem(rs, rs.len() - 1);
        assert(max_regions(rs.drop_last()) <= max_regions(rs));
    }
}

pub proof fn lemma_slot_par(m: Seq<u8>, rs: Seq<RegionObject>, slot: u8, idx: Seq<RecordView>, b: nat)
    requires
        m.len() == idx.len(),
        b <= 256,
    ensures
        slot_regions_par(m, rs, slot, idx).len() == m.len(),
        slots_below(m, b) && (slot as nat) < b && slot + sum_regions(rs) <= b ==> slots_below(slot_regions_par(m, rs, slot, idx), b),
    decreases rs,
{
    if rs.len() > 0 {
        lemma_slot_par(m, rs.drop_last(), slot, idx, b);
        let m0 = slot_regions_par(m, rs.drop_last(), slot, idx);
        let base = slot + sum_regions(rs.drop_last());
        if slots_below(m, b) && (slot as nat) < b && slot + sum_regions(rs) <= b {
            assert(sum_regions(rs) == sum_regions(rs.drop_last()) + leaves_region(rs.last()));
            assert(base < b);
            lemma_slot_states(m0, rs.last().states@, base as u8, idx, b);
        } else {
            lemma_slot_states(m0, rs.last().states@, base as u8, idx, b);
        }
    }
}

pub proof fn lemma_slot_states(m: Seq<u8>, ss: Seq<StateNode>, slot: u8, idx: Seq<RecordView>, b: nat)
    requires
        m.len() == idx.len(),
        b <= 256,
    ensures
        slot_states(m, ss, slot, idx).len() == m.len(),
        slots_below(m, b) && (slot as nat) < b && slot + max_states(ss) <= b ==> slots_below(slot_states(m, ss, slot, idx), b),
    decreases ss,
{
    if ss.len() > 0 {
        lemma_slot_states(m, ss.drop_last(), slot, idx, b);
        lemma_slot_node(slot_states(m, ss.drop_last(), slot, idx), ss.last(), slot, idx, b);
        lemma_max_states_prefix(ss, ss.len() as int);
        assert(ss.take(ss.len() as int) =~= ss);
        assert(max_states(ss.drop_last()) <= max_states(ss));
    }
}

/// Law: every state's slot is below the `_active[]` size, the largest
/// number of simultaneously active leaves of the root region.
pub proof fn law_slots_fit_active_array(machine: MachineObject, idx: Seq<RecordView>)
    requires
        leaves_region(machine.root) <= 256,
    ensures
        spec_slot_layout(machine, idx).len() == idx.len(),
        slots_below(spec_slot_layout(machine, idx), leaves_region(machine.root)),
{
    let m0 = Seq::new(idx.len(), |_i: int| 0u8);
    lemma_slot_states(m0, machine.root.states@, 0, idx, leaves_region(machine.root));
}

/// Assign the slot of one vertex and of its subtree.
fn walk_state(state: &StateNode, my_slot: u8, slot_of: &mut Vec<u8>, index: &StateIndex)
    requires
        index@.len() <= 256,
        old(slot_of)@.len() == index@.len(),
        my_slot + leaves_node(*state) <= 255,
    ensures
        final(slot_of)@ == slot_node(old(slot_of)@, *state, my_slot, index@),
    decreases state,
{
    let ghost m = slot_of@;
    proof {
        lemma_lookup_range(index@, spec_node_id(*state));
    }
    if let Some(idx) = index.lookup(node_id(state).as_str()) {
        slot_of.set(idx as usize, my_slot);
    }
    assert(slot_of@ == slot_mark(m, spec_node_id(*state), my_slot, index@));
    match state {
        StateNode::Composite(c) => {
            walk_regions_same(&c.regions, my_slot, slot_of, index);
        },
        StateNode::Parallel(p) => {
            walk_regions_par(&p.regions, my_slot, slot_of, index);
        },
        _ => {},
    }
}

fn walk_states(states: &Vec<StateNode>, slot: u8, slot_of: &mut Vec<u8>, index: &StateIndex)
    requires
        index@.len() <= 256,
        old(slot_of)@.len() == index@.len(),
        slot + max_states(states@) <= 255,
    ensures
        final(slot_of)@ == slot_states(old(slot_of)@, states@, slot, index@),
    decreases states,
{
    let ghost m = slot_of@;
    let mut i: usize = 0;
    assert(states@.take(0) =~= Seq::<StateNode>::empty());
    while i < states.len()
        invariant
            i <= states.len(),
            index@.len() <= 256,
            slot + max_states(states@) <= 255,
            slot_of@ == slot_states(m, states@.take(i as int), slot, index@),
            slot_of@.len() == index@.len(),
            m.len() == index@.len(),
        decreases states.len() - i,
    {
        assert(states@.take(i + 1).drop_last() =~= states@.take(i as int));
        proof {
            lemma_max_states_prefix(states@, i + 1);
        }
        walk_state(&states[i], slot, slot_of, index);
        proof {
            lemma_slot_states(m, states@.take(i as int), slot, index@, 0);
            lemma_slot_node(slot_states(m, states@.take(i as int), slot, index@), states@[i as int], slot, index@, 0);
        }
        i += 1;
    }
    assert(states@.take(i as int) =~= states@);
}

fn walk_regions_same(regions: &Vec<RegionObject>, slot: u8, slot_of: &mut Vec<u8>, index: &StateIndex)
    requires
        index@.len() <= 256,
        old(slot_of)@.len() == index@.len(),
        slot + max_regions(regions@) <= 255,
    ensures
        final(slot_of)@ == slot_regions_same(old(slot_of)@, regions@, slot, index@),
    decreases regions,
{
    let ghost m = slot_of@;
    let mut i: usize = 0;
    assert(regions@.take(0) =~= Seq::<RegionObject>::empty());
    while i < regions.len()
        invariant
            i <= regions.len(),
            index@.len() <= 256,
            slot + max_regions(regions@) <= 255,
            slot_of@ == slot_regions_same(m, regions@.take(i as int), slot, index@),
            slot_of@.len() == index@.len(),
            m.len() == index@.len(),
        decreases regions.len() - i,
    {
        assert(regions@.take(i + 1).drop_last() =~= regions@.take(i as int));
        proof {
            lemma_max_regions_elem(regions@, i as int);
            assert(max_states(regions@[i as int].states@) <= leaves_region(regions@[i as int]));
        }
        walk_states(&regions[i].states, slot, slot_of, index);
        proof {
            lemma_slot_same(m, regions@.take(i as int), slot, index@, 0);
            lemma_slot_states(slot_regions_same(m, regions@.take(i as int), slot, index@), regions@[i as int].states@, slot, index@, 0);
        }
        i += 1;
    }
    assert(regions@.take(i as int) =~= regions@);
}

fn walk_regions_par(regions: &Vec<RegionObject>, my_slot: u8, slot_of: &mut Vec<u8>, index: &StateIndex)
    requires
        index@.len() <= 256,
        old(slot_of)@.len() == index@.len(),
        my_slot + sum_regions(regions@) <= 255,
    ensures
        final(slot_of)@ == slot_regions_par(old(slot_of)@, regions@, my_slot, index@),
    decreases regions,
{
    let ghost m = slot_of@;
    let mut base: u8 = my_slot;
    let mut i: usize = 0;
    assert(regions@.take(0) =~= Seq::<RegionObject>::empty());
    while i < regions.len()
        invariant
            i <= regions.len(),
            index@.len() <= 256,
            my_slot + sum_regions(regions@) <= 255,
            base == my_slot + sum_regions(regions@.take(i as int)),
            slot_of@ == slot_regions_par(m, regions@.take(i as int), my_slot, index@),
            slot_of@.len() == index@.len(),
            m.len() == index@.len(),
        decreases regions.len() - i,
    {
        assert(regions@.take(i + 1).drop_last() =~= regions@.take(i as int));
        proof {
            lemma_sum_regions_step(regions@, i as int);
            assert(max_states(regions@[i as int].states@) <= leaves_region(regions@[i as int]));
        }
        walk_states(&regions[i].states, base, slot_of, index);
        proof {
            lemma_slot_par(m, regions@.take(i as int), my_slot, index@, 0);
            lemma_slot_states(slot_regions_par(m, regions@.take(i as int), my_slot, index@), regions@[i as int].states@, base, index@, 0);
        }
        let n = compute_max_active_leaves(&regions[i]);
        base = base + n;
        i += 1;
    }
    assert(regions@.take(i as int) =~= regions@);
}

/// Build the region layout of a machine: every indexed state gets the slot
/// of the region it sits in, and the `_active[]` size is the maximum number
/// of simultaneously active leaves of the root region; every slot is below
/// that size.
pub fn build_region_layout(machine: &MachineObject, index: &StateIndex) -> (r: RegionLayout)
    requires
        index@.len() <= 256,
        leaves_region(machine.root) <= 255,
    ensures
        r.slot_of@ == spec_slot_layout(*machine, index@),
        r.max_parallel_regions == leaves_region(machine.root),
        r.max_parallel_regions >= 1,
        r.slot_of@.len() == index@.len(),
        forall|i: int| 0 <= i < r.slot_of@.len() ==> #[trigger] r.slot_of@[i] < r.max_parallel_regions,
{
    let mut slot_of: Vec<u8> = Vec::new();
    let mut i: usize = 0;
    while i < index.count()
        invariant
            i <= index@.len(),
            slot_of@ == Seq::new(i as nat, |_j: int| 0u8),
        decreases index@.len() - i,
    {
        slot_of.push(0);
        i += 1;
        assert(slot_of@ =~= Seq::new(i as nat, |_j: int| 0u8));
    }
    assert(slot_of@ =~= Seq::new(index@.len(), |_i: int| 0u8));
    walk_states(&machine.root.states, 0, &mut slot_of, index);
    let max_parallel_regions = compute_max_active_leaves(&machine.root);
    proof {
        law_slots_fit_active_array(*machine, index@);
    }
    RegionLayout { slot_of, max_parallel_regions }
}


/// `n`, or 256 when it is larger: enough to tell whether a count fits a
/// `u8` without computing past that.
pub open spec fn capped(n: nat) -> nat {
    if n < 256 {
        n
    } else {
        256
    }
}

/// The active-leaf count of a region, capped at 256.
pub fn capped_leaves_region(region: &RegionObject) -> (r: u16)
    ensures
        r as nat == capped(leaves_region(*region)),
    decreases region,
{
    let t = capped_max_states(&region.states);
    if t >= 1 {
        t
    } else {
        1
    }
}

fn capped_max_states(ss: &Vec<StateNode>) -> (r: u16)
    ensures
        r as nat == capped(max_states(ss@)),
    decreases ss,
{
    let mut best: u16 = 0;
    let mut i: usize = 0;
    assert(ss@.take(0) =~= Seq::<StateNode>::empty());
    while i < ss.len()
        invariant
            i <= ss.len(),
            best as nat == capped(max_states(ss@.take(i as int))),
        decreases ss.len() - i,
    {
        assert(ss@.take(i + 1).drop_last() =~= ss@.take(i as int));
        assert(ss@.take(i + 1).last() == ss@[i as int]);
        let n = capped_leaves_node(&ss[i]);
        if n > best {
            best = n;
        }
        i += 1;
    }
    assert(ss@.take(i as int) =~= ss@);
    best
}

fn capped_leaves_node(s: &StateNode) -> (r: u16)
    ensures
        r as nat == capped(leaves_node(*s)),
    decreases s,
{
    match s {
        StateNode::Simple(_) | StateNode::Final(_) | StateNode::Submachine(_) => 1,
        StateNode::Composite(c) => {
            if c.regions.len() == 0 {
                1
            } else {
                capped_max_regions(&c.regions)
            }
        },
        StateNode::Parallel(p) => {
            let t = capped_sum_regions(&p.regions);
            if t >= 1 {
                t
            } else {
                1
            }
        },
        _ => 0,
    }
}

fn capped_max_regions(rs: &Vec<RegionObject>) -> (r: u16)
    ensures
        r as nat == capped(max_regions(rs@)),
    decreases rs,
{
    let mut best: u16 = 0;
    let mut i: usize = 0;
    assert(rs@.take(0) =~= Seq::<RegionObject>::empty());
    while i < rs.len()
        invariant
            i <= rs.len(),
            best as nat == capped(max_regions(rs@.take(i as int))),
        decreases rs.len() - i,
    {
        assert(rs@.take(i + 1).drop_last() =~= rs@.take(i as int));
        assert(rs@.take(i + 1).last() == rs@[i as int]);
        let n = capped_leaves_region(&rs[i]);
        if n > best {
            best = n;
        }
        i += 1;
    }
    assert(rs@.take(i as int) =~= rs@);
    best
}

fn capped_sum_regions(rs: &Vec<RegionObject>) -> (r: u16)
    ensures
        r as nat == capped(sum_regions(rs@)),
    decreases rs,
{
    let mut total: u16 = 0;
    let mut i: usize = 0;
    assert(rs@.take(0) =~= Seq::<RegionObject>::empty());
    while i < rs.len()
        invariant
            i <= rs.len(),
            total as nat == capped(sum_regions(rs@.take(i as int))),
        decreases rs.len() - i,
    {
        assert(rs@.take(i + 1).drop_last() =~= rs@.take(i as int));
        assert(rs@.take(i + 1).last() == rs@[i as int]);
        let n = capped_leaves_region(&rs[i]);
        let t: u16 = total + n;
        total = if t < 256 { t } else { 256 };
        i += 1;
    }
    assert(rs@.take(i as int) =~= rs@);
    total
}

} // verus!
