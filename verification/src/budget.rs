//! Memory-budget computation: approximate RAM for the machine struct
//! (context, event queue, history slots, timers, bookkeeping) and a
//! conservative ROM estimate. The figures are advisory.

use vstd::prelude::*;

use crate::config::CodegenConfig;
use crate::emit::EmitError;
use crate::ir::{ContextField, EventObject, Ir, MachineObject, Param, RegionObject, StateNode, Type};
use crate::region_layout::{build_region_layout, leaves_region};
use crate::state_index::{RecordView, StateIndex, build_state_index, spec_active_at_rest, spec_build};
use crate::text::str_eq;

verus! {

/// Approximate memory budget of one machine.
#[derive(Clone, Copy, Debug, PartialEq, Eq, Structural)]
pub struct MemoryBudget {
    /// Total RAM of the machine struct.
    pub sizeof_machine: usize,
    /// Bytes of the user context fields.
    pub sizeof_context: usize,
    /// Bytes of the event queue (`capacity * sizeof(Event)`).
    pub queue_bytes: usize,
    /// Worst-case depth of the state hierarchy (at least 1).
    pub max_completion_depth: usize,
    /// One byte per history slot.
    pub history_bytes: usize,
    /// Four bytes per timer.
    pub timer_bytes: usize,
    /// Total RAM; equal to `sizeof_machine`.
    pub total_ram_bytes: usize,
    /// Conservative ROM estimate.
    pub estimated_rom_bytes: usize,
}

/// Width in bytes of a pointer-sized value on the build target.
pub open spec fn ptr_bytes() -> nat {
    vstd::layout::size_of::<usize>()
}

/// Approximate C size of a type.
pub open spec fn spec_sizeof_type(t: Type) -> nat
    decreases t,
{
    match t {
        Type::Primitive { name } => {
            let n = name@;
            if n == "bool"@ || n == "u8"@ || n == "i8"@ {
                1
            } else if n == "u16"@ || n == "i16"@ {
                2
            } else if n == "u32"@ || n == "i32"@ || n == "f32"@ {
                4
            } else if n == "u64"@ || n == "i64"@ || n == "f64"@ {
                8
            } else if n == "string"@ {
                ptr_bytes()
            } else {
                4
            }
        },
        Type::Enum { .. } => 4,
        Type::Opaque { .. } => 4,
        Type::Array { element, size } => spec_sizeof_type(*element) * (size as nat),
    }
}

/// Computing the size of `t` stays within `usize`.
pub open spec fn sizeof_fits(t: Type) -> bool
    decreases t,
{
    match t {
        Type::Array { element, size } => sizeof_fits(*element) && spec_sizeof_type(*element) * size
            <= usize::MAX,
        _ => true,
    }
}

pub open spec fn spec_sizeof_params(ps: Seq<Param>) -> nat
    decreases ps.len(),
{
    if ps.len() == 0 {
        0
    } else {
        spec_sizeof_params(ps.drop_last()) + spec_sizeof_type(ps.last().ty)
    }
}

pub open spec fn spec_sizeof_context(fs: Seq<ContextField>) -> nat
    decreases fs.len(),
{
    if fs.len() == 0 {
        0
    } else {
        spec_sizeof_context(fs.drop_last()) + spec_sizeof_type(fs.last().ty)
    }
}

/// Largest payload size over the events (0 without events).
pub open spec fn spec_max_payload(evs: Seq<EventObject>) -> nat
    decreases evs.len(),
{
    if evs.len() == 0 {
        0
    } else {
        let a = spec_max_payload(evs.drop_last());
        let b = spec_sizeof_params(evs.last().payload@);
        if b > a {
            b
        } else {
            a
        }
    }
}

/// Event size: a one-byte tag plus the worst-case payload.
pub open spec fn spec_sizeof_event(m: MachineObject) -> nat {
    1 + spec_max_payload(m.events@)
}

/// Number of records that own a history vertex.
pub open spec fn spec_history_slots(recs: Seq<RecordView>) -> nat
    decreases recs.len(),
{
    if recs.len() == 0 {
        0
    } else {
        spec_history_slots(recs.drop_last()) + if recs.last().history_pseudo is Some {
            1nat
        } else {
            0nat
        }
    }
}

/// Number of records of kinds that can be active at rest.
pub open spec fn spec_active_count(recs: Seq<RecordView>) -> nat
    decreases recs.len(),
{
    if recs.len() == 0 {
        0
    } else {
        spec_active_count(recs.drop_last()) + if spec_active_at_rest(recs.last().kind) {
            1nat
        } else {
            0nat
        }
    }
}

/// What a tree count adds up per state.
pub enum TreeCount {
    Timers,
    Transitions,
}

/// A state's own timers or transitions (simple, composite and parallel
/// states only).
pub open spec fn own_count(s: StateNode, k: TreeCount) -> nat {
    match k {
        TreeCount::Timers => match s {
            StateNode::Simple(x) => x.timers@.len(),
            StateNode::Composite(x) => x.timers@.len(),
            StateNode::Parallel(x) => x.timers@.len(),
            _ => 0,
        },
        TreeCount::Transitions => match s {
            StateNode::Simple(x) => x.transitions@.len(),
            StateNode::Composite(x) => x.transitions@.len(),
            StateNode::Parallel(x) => x.transitions@.len(),
            _ => 0,
        },
    }
}

/// The count of a state and of every state below it.
pub open spec fn tree_count(s: StateNode, k: TreeCount) -> nat
    decreases s,
{
    own_count(s, k) + match s {
        StateNode::Composite(c) => regions_count(c.regions@, k),
        StateNode::Parallel(p) => regions_count(p.regions@, k),
        _ => 0,
    }
}

pub open spec fn regions_count(rs: Seq<RegionObject>, k: TreeCount) -> nat
    decreases rs,
{
    if rs.len() == 0 {
        0
    } else {
        regions_count(rs.drop_last(), k) + states_count(rs.last().states@, k)
    }
}

pub open spec fn states_count(ss: Seq<StateNode>, k: TreeCount) -> nat
    decreases ss,
{
    if ss.len() == 0 {
        0
    } else {
        states_count(ss.drop_last(), k) + tree_count(ss.last(), k)
    }
}

/// Number of ancestors of record `i` below the root.
pub open spec fn spec_depth(recs: Seq<RecordView>, i: int) -> nat
    decreases i,
{
    if i <= 0 || i >= recs.len() || recs[i].parent >= i || recs[i].parent < 0 {
        0
    } else {
        1 + spec_depth(recs, recs[i].parent)
    }
}

/// Largest depth over the first `n` records.
pub open spec fn spec_max_depth(recs: Seq<RecordView>, n: int) -> nat
    decreases n,
{
    if n <= 0 {
        0
    } else {
        let a = spec_max_depth(recs, n - 1);
        let b = spec_depth(recs, n - 1);
        if b > a {
            b
        } else {
            a
        }
    }
}

/// The worst-case hierarchy depth, at least 1.
pub open spec fn spec_state_depth(recs: Seq<RecordView>) -> nat {
    let d = spec_max_depth(recs, recs.len() as int);
    if d >= 1 {
        d
    } else {
        1
    }
}

/// Conservative ROM estimate: one byte per parent-table entry, 16 bytes
/// per transition-table row, an entry and an exit pointer per state that
/// can be active at rest, and 256 + 64 bytes per transition of code.
pub open spec fn spec_rom(recs: Seq<RecordView>, m: MachineObject) -> nat {
    let t = states_count(m.root.states@, TreeCount::Transitions);
    recs.len() + t * 16 + spec_active_count(recs) * 2 * ptr_bytes() + 256 + t * 64
}

/// Everything the budget of `m` needs: the index builds, the layout does
/// not run out of slots, and every quantity fits in `usize`.
pub open spec fn budget_fits(m: MachineObject, config: CodegenConfig) -> bool {
    let recs = spec_build(m).recs;
    let ctx = spec_sizeof_context(m.context.fields@);
    let queue = config.queue_capacity * spec_sizeof_event(m);
    let hist = spec_history_slots(recs);
    let timers = states_count(m.root.states@, TreeCount::Timers) * 4;
    let book = 5 + leaves_region(m.root);
    &&& recs.len() <= 256
    &&& leaves_region(m.root) <= 255
    &&& forall|i: int| 0 <= i < m.context.fields@.len() ==> sizeof_fits(#[trigger] m.context.fields@[i].ty)
    &&& forall|i: int, j: int|
        0 <= i < m.events@.len() && 0 <= j < m.events@[i].payload@.len() ==> sizeof_fits(
            #[trigger] m.events@[i].payload@[j].ty,
        )
    &&& forall|i: int| 0 <= i < m.events@.len() ==> spec_sizeof_params(#[trigger] m.events@[i].payload@) <= usize::MAX
    &&& spec_sizeof_event(m) <= usize::MAX
    &&& ctx + queue + hist + timers + book <= usize::MAX
    &&& spec_rom(recs, m) <= usize::MAX
}

/// Approximate C size of a type.
fn sizeof_type(t: &Type) -> (r: usize)
    requires
        sizeof_fits(*t),
    ensures
        r == spec_sizeof_type(*t),
    decreases t,
{
    match t {
        Type::Primitive { name } => {
            let n = name.as_str();
            if str_eq(n, "bool") || str_eq(n, "u8") || str_eq(n, "i8") {
                1
            } else if str_eq(n, "u16") || str_eq(n, "i16") {
                2
            } else if str_eq(n, "u32") || str_eq(n, "i32") || str_eq(n, "f32") {
                4
            } else if str_eq(n, "u64") || str_eq(n, "i64") || str_eq(n, "f64") {
                8
            } else if str_eq(n, "string") {
                core::mem::size_of::<usize>()
            } else {
                4
            }
        },
        Type::Enum { .. } => 4,
        Type::Opaque { .. } => 4,
        Type::Array { element, size } => sizeof_type(element) * (*size as usize),
    }
}

/// Sum of the field sizes of a parameter list.
fn sizeof_params(ps: &Vec<Param>) -> (r: usize)
    requires
        forall|j: int| 0 <= j < ps@.len() ==> sizeof_fits(#[trigger] ps@[j].ty),
        spec_sizeof_params(ps@) <= usize::MAX,
    ensures
        r == spec_sizeof_params(ps@),
{
    let mut total: usize = 0;
    let mut i: usize = 0;
    while i < ps.len()
        invariant
            i <= ps.len(),
            forall|j: int| 0 <= j < ps@.len() ==> sizeof_fits(#[trigger] ps@[j].ty),
            spec_sizeof_params(ps@) <= usize::MAX,
            total == spec_sizeof_params(ps@.take(i as int)),
        decreases ps.len() - i,
    {
        assert(ps@.take(i + 1).drop_last() =~= ps@.take(i as int));
        proof {
            lemma_params_prefix(ps@, i + 1);
        }
        total = total + sizeof_type(&ps[i].ty);
        i += 1;
    }
    assert(ps@.take(i as int) =~= ps@);
    total
}

proof fn lemma_params_prefix(ps: Seq<Param>, k: int)
    requires
        0 <= k <= ps.len(),
    ensures
        spec_sizeof_params(ps.take(k)) <= spec_sizeof_params(ps),
    decreases ps.len(),
{
    if k == ps.len() {
        assert(ps.take(k) =~= ps);
    } else {
        lemma_params_prefix(ps.drop_last(), k);
        assert(ps.drop_last().take(k) =~= ps.take(k));
    }
}

proof fn lemma_context_prefix(fs: Seq<ContextField>, k: int)
    requires
        0 <= k <= fs.len(),
    ensures
        spec_sizeof_context(fs.take(k)) <= spec_sizeof_context(fs),
    decreases fs.len(),
{
    if k == fs.len() {
        assert(fs.take(k) =~= fs);
    } else {
        lemma_context_prefix(fs.drop_last(), k);
        assert(fs.drop_last().take(k) =~= fs.take(k));
    }
}

/// Sum of the context field sizes.
fn sizeof_context(fields: &Vec<ContextField>) -> (r: usize)
    requires
        forall|j: int| 0 <= j < fields@.len() ==> sizeof_fits(#[trigger] fields@[j].ty),
        spec_sizeof_context(fields@) <= usize::MAX,
    ensures
        r == spec_sizeof_context(fields@),
{
    let mut total: usize = 0;
    let mut i: usize = 0;
    while i < fields.len()
        invariant
            i <= fields.len(),
            forall|j: int| 0 <= j < fields@.len() ==> sizeof_fits(#[trigger] fields@[j].ty),
            spec_sizeof_context(fields@) <= usize::MAX,
            total == spec_sizeof_context(fields@.take(i as int)),
        decreases fields.len() - i,
    {
        assert(fields@.take(i + 1).drop_last() =~= fields@.take(i as int));
        proof {
            lemma_context_prefix(fields@, i + 1);
        }
        total = total + sizeof_type(&fields[i].ty);
        i += 1;
    }
    assert(fields@.take(i as int) =~= fields@);
    total
}

/// Event size: one tag byte plus the largest payload.
fn sizeof_event(machine: &MachineObject) -> (r: usize)
    requires
        forall|i: int, j: int|
            0 <= i < machine.events@.len() && 0 <= j < machine.events@[i].payload@.len()
                ==> sizeof_fits(#[trigger] machine.events@[i].payload@[j].ty),
        forall|i: int| 0 <= i < machine.events@.len() ==> spec_sizeof_params(#[trigger] machine.events@[i].payload@) <= usize::MAX,
        spec_sizeof_event(*machine) <= usize::MAX,
    ensures
        r == spec_sizeof_event(*machine),
{
    let evs = &machine.events;
    let mut worst: usize = 0;
    let mut i: usize = 0;
    while i < evs.len()
        invariant
            i <= evs.len(),
            evs@ == machine.events@,
            forall|a: int, b: int|
                0 <= a < evs@.len() && 0 <= b < evs@[a].payload@.len() ==> sizeof_fits(#[trigger] evs@[a].payload@[b].ty),
            forall|a: int| 0 <= a < evs@.len() ==> spec_sizeof_params(#[trigger] evs@[a].payload@) <= usize::MAX,
            worst == spec_max_payload(evs@.take(i as int)),
        decreases evs.len() - i,
    {
        assert(evs@.take(i + 1).drop_last() =~= evs@.take(i as int));
        let ghost ev = evs@[i as int];
        assert forall|b: int| 0 <= b < ev.payload@.len() implies sizeof_fits(#[trigger] ev.payload@[b].ty) by {
            assert(sizeof_fits(evs@[i as int].payload@[b].ty));
        }
        let s = sizeof_params(&evs[i].payload);
        if s > worst {
            worst = s;
        }
        i += 1;
    }
    assert(evs@.take(i as int) =~= evs@);
    1 + worst
}

/// Number of records that own a history vertex.
fn count_history_slots(index: &StateIndex) -> (r: usize)
    ensures
        r == spec_history_slots(index@),
{
    let mut n: usize = 0;
    let mut i: usize = 0;
    while i < index.records.len()
        invariant
            i <= index.records.len(),
            n == spec_history_slots(index@.take(i as int)),
            n <= i,
        decreases index.records.len() - i,
    {
        assert(index@.take(i + 1).drop_last() =~= index@.take(i as int));
        if index.records[i].history_pseudo.is_some() {
            n += 1;
        }
        i += 1;
    }
    assert(index@.take(i as int) =~= index@);
    n
}

/// Number of records whose kind can be active at rest.
fn count_active_at_rest(index: &StateIndex) -> (r: usize)
    ensures
        r == spec_active_count(index@),
{
    let mut n: usize = 0;
    let mut i: usize = 0;
    while i < index.records.len()
        invariant
            i <= index.records.len(),
            n == spec_active_count(index@.take(i as int)),
            n <= i,
        decreases index.records.len() - i,
    {
        assert(index@.take(i + 1).drop_last() =~= index@.take(i as int));
        if index.records[i].kind.is_active_at_rest() {
            n += 1;
        }
        i += 1;
    }
    assert(index@.take(i as int) =~= index@);
    n
}


proof fn lemma_regions_prefix(rs: Seq<RegionObject>, k: int, c: TreeCount)
    requires
        0 <= k <= rs.len(),
    ensures
        regions_count(rs.take(k), c) <= regions_count(rs, c),
    decreases rs.len(),
{
    if k == rs.len() {
        assert(rs.take(k) =~= rs);
    } else {
        lemma_regions_prefix(rs.drop_last(), k, c);
        assert(rs.drop_last().take(k) =~= rs.take(k));
    }
}

proof fn lemma_states_prefix(ss: Seq<StateNode>, k: int, c: TreeCount)
    requires
        0 <= k <= ss.len(),
    ensures
        states_count(ss.take(k), c) <= states_count(ss, c),
    decreases ss.len(),
{
    if k == ss.len() {
        assert(ss.take(k) =~= ss);
    } else {
        lemma_states_prefix(ss.drop_last(), k, c);
        assert(ss.drop_last().take(k) =~= ss.take(k));
    }
}

/// Adds the timers (or transitions) of `s` and of every state below it.
fn count_state(s: &StateNode, timers: bool, acc: &mut usize)
    requires
        *old(acc) + tree_count(*s, if timers { TreeCount::Timers } else { TreeCount::Transitions }) <= usize::MAX,
    ensures
        *final(acc) == *old(acc) + tree_count(*s, if timers { TreeCount::Timers } else { TreeCount::Transitions }),
    decreases s,
{
    let ghost k = if timers { TreeCount::Timers } else { TreeCount::Transitions };
    match s {
        StateNode::Simple(ss) => {
            *acc += if timers { ss.timers.len() } else { ss.transitions.len() };
        },
        StateNode::Composite(cs) => {
            *acc += if timers { cs.timers.len() } else { cs.transitions.len() };
            count_regions(&cs.regions, timers, acc);
        },
        StateNode::Parallel(ps) => {
            *acc += if timers { ps.timers.len() } else { ps.transitions.len() };
            count_regions(&ps.regions, timers, acc);
        },
        _ => {},
    }
}

fn count_regions(rs: &Vec<RegionObject>, timers: bool, acc: &mut usize)
    requires
        *old(acc) + regions_count(rs@, if timers { TreeCount::Timers } else { TreeCount::Transitions }) <= usize::MAX,
    ensures
        *final(acc) == *old(acc) + regions_count(rs@, if timers { TreeCount::Timers } else { TreeCount::Transitions }),
    decreases rs,
{
    let ghost k = if timers { TreeCount::Timers } else { TreeCount::Transitions };
    let ghost start = *acc;
    let mut i: usize = 0;
    assert(rs@.take(0) =~= Seq::<RegionObject>::empty());
    while i < rs.len()
        invariant
            i <= rs.len(),
            k == (if timers { TreeCount::Timers } else { TreeCount::Transitions }),
            start + regions_count(rs@, k) <= usize::MAX,
            *acc == start + regions_count(rs@.take(i as int), k),
        decreases rs.len() - i,
    {
        assert(rs@.take(i + 1).drop_last() =~= rs@.take(i as int));
        proof {
            lemma_regions_prefix(rs@, i + 1, k);
        }
        count_states(&rs[i].states, timers, acc);
        i += 1;
    }
    assert(rs@.take(i as int) =~= rs@);
}

fn count_states(ss: &Vec<StateNode>, timers: bool, acc: &mut usize)
    requires
        *old(acc) + states_count(ss@, if timers { TreeCount::Timers } else { TreeCount::Transitions }) <= usize::MAX,
    ensures
        *final(acc) == *old(acc) + states_count(ss@, if timers { TreeCount::Timers } else { TreeCount::Transitions }),
    decreases ss,
{
    let ghost k = if timers { TreeCount::Timers } else { TreeCount::Transitions };
    let ghost start = *acc;
    let mut i: usize = 0;
    assert(ss@.take(0) =~= Seq::<StateNode>::empty());
    while i < ss.len()
        invariant
            i <= ss.len(),
            k == (if timers { TreeCount::Timers } else { TreeCount::Transitions }),
            start + states_count(ss@, k) <= usize::MAX,
            *acc == start + states_count(ss@.take(i as int), k),
        decreases ss.len() - i,
    {
        assert(ss@.take(i + 1).drop_last() =~= ss@.take(i as int));
        proof {
            lemma_states_prefix(ss@, i + 1, k);
        }
        count_state(&ss[i], timers, acc);
        i += 1;
    }
    assert(ss@.take(i as int) =~= ss@);
}

/// Number of timers declared anywhere in the machine.
fn count_timers(machine: &MachineObject) -> (r: usize)
    requires
        states_count(machine.root.states@, TreeCount::Timers) <= usize::MAX,
    ensures
        r == states_count(machine.root.states@, TreeCount::Timers),
{
    let mut acc: usize = 0;
    count_states(&machine.root.states, true, &mut acc);
    acc
}

/// Number of transitions of simple, composite and parallel states.
fn count_transitions(machine: &MachineObject) -> (r: usize)
    requires
        states_count(machine.root.states@, TreeCount::Transitions) <= usize::MAX,
    ensures
        r == states_count(machine.root.states@, TreeCount::Transitions),
{
    let mut acc: usize = 0;
    count_states(&machine.root.states, false, &mut acc);
    acc
}

/// Number of `_active[]` slots: the region layout's maximum number of
/// simultaneously active leaves.
fn count_active_slots(machine: &MachineObject) -> (r: usize)
    requires
        spec_build(*machine).recs.len() <= 256,
        leaves_region(machine.root) <= 255,
    ensures
        r == leaves_region(machine.root),
{
    match build_state_index(machine) {
        Ok(idx) => build_region_layout(machine, &idx).max_parallel_regions as usize,
        Err(_) => 0,
    }
}

proof fn lemma_depth_bound(recs: Seq<RecordView>, i: int)
    ensures
        spec_depth(recs, i) <= if i > 0 { i } else { 0 },
    decreases i,
{
    if !(i <= 0 || i >= recs.len() || recs[i].parent >= i || recs[i].parent < 0) {
        lemma_depth_bound(recs, recs[i].parent);
    }
}

proof fn lemma_max_depth_bound(recs: Seq<RecordView>, n: int)
    ensures
        spec_max_depth(recs, n) <= if n > 0 { n } else { 0 },
    decreases n,
{
    if n > 0 {
        lemma_max_depth_bound(recs, n - 1);
        lemma_depth_bound(recs, n - 1);
    }
}

/// The worst-case depth of the hierarchy, at least 1.
fn state_depth(index: &StateIndex) -> (r: usize)
    requires
        index.wf(),
    ensures
        r == spec_state_depth(index@),
{
    let ghost recs = index@;
    let mut max_depth: usize = 0;
    let mut i: usize = 0;
    while i < index.records.len()
        invariant
            index.wf(),
            recs == index@,
            i <= index.records.len(),
            max_depth == spec_max_depth(recs, i as int),
        decreases index.records.len() - i,
    {
        let mut depth: usize = 0;
        let mut cur: u8 = i as u8;
        while cur != 0
            invariant
                index.wf(),
                recs == index@,
                (cur as int) < recs.len(),
                depth + spec_depth(recs, cur as int) == spec_depth(recs, i as int),
                depth <= i,
            ensures
                depth == spec_depth(recs, i as int),
            decreases cur,
        {
            proof {
                lemma_depth_bound(recs, i as int);
                lemma_depth_bound(recs, cur as int);
            }
            let parent = index.records[cur as usize].parent;
            assert(index@[cur as int].parent == parent as int);
            if parent == cur {
                break;
            }
            depth += 1;
            cur = parent;
        }
        proof {
            lemma_depth_bound(recs, i as int);
        }
        if depth > max_depth {
            max_depth = depth;
        }
        i += 1;
    }
    proof {
        lemma_max_depth_bound(recs, recs.len() as int);
    }
    if max_depth >= 1 {
        max_depth
    } else {
        1
    }
}

/// Conservative ROM estimate.
fn estimate_rom(index: &StateIndex, machine: &MachineObject) -> (r: usize)
    requires
        spec_rom(index@, *machine) <= usize::MAX,
    ensures
        r == spec_rom(index@, *machine),
{
    let parent_table = index.records.len();
    let ghost t = states_count(machine.root.states@, TreeCount::Transitions);
    let ghost a = spec_active_count(index@);
    let ghost pb = ptr_bytes();
    assert(t * 16 <= usize::MAX) by (nonlinear_arith)
        requires index@.len() + t * 16 + a * 2 * pb + 256 + t * 64 <= usize::MAX;
    assert(t * 64 <= usize::MAX) by (nonlinear_arith)
        requires index@.len() + t * 16 + a * 2 * pb + 256 + t * 64 <= usize::MAX;
    assert(a * 2 * pb <= usize::MAX) by (nonlinear_arith)
        requires index@.len() + t * 16 + a * 2 * pb + 256 + t * 64 <= usize::MAX;
    assert(t <= usize::MAX) by (nonlinear_arith)
        requires t * 16 <= usize::MAX;
    assert(a * 2 <= usize::MAX) by (nonlinear_arith)
        requires a * 2 * pb <= usize::MAX, pb >= 1;
    let trans_count = count_transitions(machine);
    let trans_table = trans_count * 16;
    let fn_tables = count_active_at_rest(index) * 2 * core::mem::size_of::<usize>();
    let text = 256 + trans_count * 64;
    parent_table + trans_table + fn_tables + text
}


/// The budget of `m`, field by field.
pub open spec fn spec_budget_matches(b: MemoryBudget, m: MachineObject, config: CodegenConfig) -> bool {
    let recs = spec_build(m).recs;
    let ctx = spec_sizeof_context(m.context.fields@);
    let queue = config.queue_capacity * spec_sizeof_event(m);
    let hist = spec_history_slots(recs);
    let timers = states_count(m.root.states@, TreeCount::Timers) * 4;
    let book = 5 + leaves_region(m.root);
    &&& b.sizeof_context == ctx
    &&& b.queue_bytes == queue
    &&& b.history_bytes == hist
    &&& b.timer_bytes == timers
    &&& b.max_completion_depth == spec_state_depth(recs)
    &&& b.sizeof_machine == ctx + queue + hist + timers + book
    &&& b.total_ram_bytes == b.sizeof_machine
    &&& b.estimated_rom_bytes == spec_rom(recs, m)
}

/// Budget of one machine: context bytes, queue bytes (capacity times the
/// event size), one byte per history slot, four bytes per timer, five
/// bookkeeping bytes plus one per `_active[]` slot, the hierarchy depth and
/// the ROM estimate.
pub fn compute_machine_budget(machine: &MachineObject, config: &CodegenConfig) -> (r: MemoryBudget)
    requires
        budget_fits(*machine, *config),
    ensures
        spec_budget_matches(r, *machine, *config),
{
    let index = match build_state_index(machine) {
        Ok(i) => i,
        Err(_) => {
            return MemoryBudget {
                sizeof_machine: 0,
                sizeof_context: 0,
                queue_bytes: 0,
                max_completion_depth: 0,
                history_bytes: 0,
                timer_bytes: 0,
                total_ram_bytes: 0,
                estimated_rom_bytes: 0,
            };
        },
    };
    let ghost recs = index@;
    let ghost ctx = spec_sizeof_context(machine.context.fields@);
    let ghost ev = spec_sizeof_event(*machine);
    let ghost hist = spec_history_slots(recs);
    let ghost tm = states_count(machine.root.states@, TreeCount::Timers);
    let ghost book = 5 + leaves_region(machine.root);
    let ghost cap = config.queue_capacity as nat;
    assert(cap * ev <= usize::MAX);
    assert(tm * 4 <= usize::MAX);
    assert(tm <= usize::MAX) by (nonlinear_arith)
        requires tm * 4 <= usize::MAX;
    assert(ctx <= usize::MAX);
    let sizeof_event = sizeof_event(machine);
    let queue_bytes = (config.queue_capacity as usize) * sizeof_event;
    let sizeof_context = sizeof_context(&machine.context.fields);
    let history_bytes = count_history_slots(&index);
    let timer_bytes = count_timers(machine) * 4;
    let max_completion_depth = state_depth(&index);
    let bookkeeping = 5 + count_active_slots(machine);
    let sizeof_machine = sizeof_context + queue_bytes + history_bytes + timer_bytes + bookkeeping;
    let estimated_rom_bytes = estimate_rom(&index, machine);
    MemoryBudget {
        sizeof_machine,
        sizeof_context,
        queue_bytes,
        max_completion_depth,
        history_bytes,
        timer_bytes,
        total_ram_bytes: sizeof_machine,
        estimated_rom_bytes,
    }
}

/// Budget of the first machine of a description.
pub fn compute_budget(ir: &Ir, config: &CodegenConfig) -> (r: MemoryBudget)
    requires
        ir.machines@.len() > 0,
        budget_fits(ir.machines@[0], *config),
    ensures
        spec_budget_matches(r, ir.machines@[0], *config),
{
    compute_machine_budget(&ir.machines[0], config)
}


/// Law: the machine struct is never smaller than its user context plus its
/// event queue (the bookkeeping bytes come on top), and the ROM estimate is
/// positive even for a machine without transitions.
pub proof fn law_budget_bounds(b: MemoryBudget, m: MachineObject, config: CodegenConfig)
    requires
        spec_budget_matches(b, m, config),
    ensures
        b.total_ram_bytes > b.sizeof_context,
        b.total_ram_bytes >= b.sizeof_context + b.queue_bytes + 5,
        b.estimated_rom_bytes >= 256,
{
}

/// Law: the queue bytes grow strictly with the configured capacity, the
/// machine otherwise unchanged.
pub proof fn law_queue_bytes_monotonic(
    b1: MemoryBudget,
    c1: CodegenConfig,
    b2: MemoryBudget,
    c2: CodegenConfig,
    m: MachineObject,
)
    requires
        spec_budget_matches(b1, m, c1),
        spec_budget_matches(b2, m, c2),
        c1.queue_capacity < c2.queue_capacity,
    ensures
        b1.queue_bytes < b2.queue_bytes,
{
    let e = spec_sizeof_event(m);
    assert(c1.queue_capacity * e < c2.queue_capacity * e) by (nonlinear_arith)
        requires
            c1.queue_capacity < c2.queue_capacity,
            e >= 1,
    ;
}


/// The storage size in bytes of a C99 scalar type as the generated code
/// declares it (`bool` and the fixed-width integer and floating types).
pub open spec fn c_scalar_bytes(c: Seq<char>) -> Option<nat> {
    if c == "bool"@ || c == "uint8_t"@ || c == "int8_t"@ {
        Some(1)
    } else if c == "uint16_t"@ || c == "int16_t"@ {
        Some(2)
    } else if c == "uint32_t"@ || c == "int32_t"@ || c == "float"@ {
        Some(4)
    } else if c == "uint64_t"@ || c == "int64_t"@ || c == "double"@ {
        Some(8)
    } else {
        None
    }
}

proof fn lemma_c_scalar_table()
    ensures
        c_scalar_bytes("bool"@) == Some(1nat),
        c_scalar_bytes("uint8_t"@) == Some(1nat),
        c_scalar_bytes("int8_t"@) == Some(1nat),
        c_scalar_bytes("uint16_t"@) == Some(2nat),
        c_scalar_bytes("int16_t"@) == Some(2nat),
        c_scalar_bytes("uint32_t"@) == Some(4nat),
        c_scalar_bytes("int32_t"@) == Some(4nat),
        c_scalar_bytes("float"@) == Some(4nat),
        c_scalar_bytes("uint64_t"@) == Some(8nat),
        c_scalar_bytes("int64_t"@) == Some(8nat),
        c_scalar_bytes("double"@) == Some(8nat),
        c_scalar_bytes("const char *"@) is None,
        c_scalar_bytes("int"@) is None,
{
    reveal_strlit("bool");
    reveal_strlit("uint8_t");
    reveal_strlit("int8_t");
    reveal_strlit("uint16_t");
    reveal_strlit("int16_t");
    reveal_strlit("uint32_t");
    reveal_strlit("int32_t");
    reveal_strlit("float");
    reveal_strlit("uint64_t");
    reveal_strlit("int64_t");
    reveal_strlit("double");
    reveal_strlit("const char *");
    reveal_strlit("int");
    assert("uint16_t"@[4] == '1' && "uint32_t"@[4] == '3' && "uint64_t"@[4] == '6');
    assert("uint8_t"@[0] == 'u' && "int16_t"@[0] == 'i' && "int32_t"@[0] == 'i' && "int64_t"@[0] == 'i');
    assert("int16_t"@[3] == '1' && "int32_t"@[3] == '3' && "int64_t"@[3] == '6');
    assert("int8_t"@[0] == 'i' && "double"@[0] == 'd');
    assert("int"@.len() == 3 && "const char *"@.len() == 12);
    assert("bool"@.len() == 4);
    assert("uint8_t"@.len() == 7);
    assert("int8_t"@.len() == 6);
    assert("uint16_t"@.len() == 8);
    assert("int16_t"@.len() == 7);
    assert("uint32_t"@.len() == 8);
    assert("int32_t"@.len() == 7);
    assert("float"@.len() == 5);
    assert("uint64_t"@.len() == 8);
    assert("int64_t"@.len() == 7);
    assert("double"@.len() == 6);
    assert("uint16_t"@ != "bool"@ && "uint16_t"@ != "uint8_t"@ && "uint16_t"@ != "int8_t"@);
    assert("uint32_t"@ != "uint16_t"@ && "uint32_t"@ != "int16_t"@);
    assert("uint64_t"@ != "uint32_t"@ && "uint64_t"@ != "uint16_t"@);
    assert(c_scalar_bytes("bool"@) == Some(1nat));
    assert(c_scalar_bytes("uint8_t"@) == Some(1nat));
    assert(c_scalar_bytes("int8_t"@) == Some(1nat));
    assert(c_scalar_bytes("uint16_t"@) == Some(2nat));
    assert(c_scalar_bytes("int16_t"@) == Some(2nat));
    assert(c_scalar_bytes("uint32_t"@) == Some(4nat));
    assert(c_scalar_bytes("int32_t"@) == Some(4nat));
    assert(c_scalar_bytes("float"@) == Some(4nat));
    assert(c_scalar_bytes("uint64_t"@) == Some(8nat));
    assert(c_scalar_bytes("int64_t"@) == Some(8nat));
    assert(c_scalar_bytes("double"@) == Some(8nat));
}

/// The budget sizes a field as the C declaration it is emitted as: a
/// primitive takes the bytes of its C99 type (`u32`, `i32` and `f32` are
/// `uint32_t`, `int32_t` and `float`: 4 bytes), an array the element size
/// times its length, and a context grows by each field's size.
pub proof fn law_field_sizes_match_c(t: Type, fs: Seq<ContextField>, f: ContextField)
    ensures
        t matches Type::Primitive { name } ==> (c_scalar_bytes(crate::expr::spec_primitive_to_c(name@)) matches Some(k)
            ==> spec_sizeof_type(t) == k),
        t matches Type::Array { element, size } ==> spec_sizeof_type(t) == spec_sizeof_type(*element) * (size as nat),
        spec_sizeof_context(Seq::<ContextField>::empty()) == 0,
        spec_sizeof_context(fs.push(f)) == spec_sizeof_context(fs) + spec_sizeof_type(f.ty),
{
    lemma_c_scalar_table();
    reveal_strlit("bool");
    reveal_strlit("u8");
    reveal_strlit("i8");
    reveal_strlit("u16");
    reveal_strlit("i16");
    reveal_strlit("u32");
    reveal_strlit("i32");
    reveal_strlit("f32");
    reveal_strlit("u64");
    reveal_strlit("i64");
    reveal_strlit("f64");
    reveal_strlit("string");
    assert("u8"@[0] == 'u' && "i8"@[0] == 'i');
    assert("u16"@[0] == 'u' && "i16"@[0] == 'i' && "u32"@[0] == 'u' && "i32"@[0] == 'i' && "f32"@[0] == 'f');
    assert("u64"@[0] == 'u' && "i64"@[0] == 'i' && "f64"@[0] == 'f');
    assert("u16"@[1] == '1' && "i16"@[1] == '1' && "u32"@[1] == '3' && "i32"@[1] == '3' && "f32"@[1] == '3');
    assert("u64"@[1] == '6' && "i64"@[1] == '6' && "f64"@[1] == '6');
    if let Type::Primitive { name } = t {
        let n = name@;
        if n == "bool"@ {
            assert(crate::expr::spec_primitive_to_c(n) == "bool"@);
            assert(c_scalar_bytes("bool"@) == Some(1nat));
            assert(spec_sizeof_type(t) == 1);
        } else if n == "u8"@ {
            assert(crate::expr::spec_primitive_to_c(n) == "uint8_t"@);
            assert(c_scalar_bytes("uint8_t"@) == Some(1nat));
            assert(spec_sizeof_type(t) == 1);
        } else if n == "i8"@ {
            assert(crate::expr::spec_primitive_to_c(n) == "int8_t"@);
            assert(c_scalar_bytes("int8_t"@) == Some(1nat));
            assert(spec_sizeof_type(t) == 1);
        } else if n == "u16"@ {
            assert(crate::expr::spec_primitive_to_c(n) == "uint16_t"@);
            assert(c_scalar_bytes("uint16_t"@) == Some(2nat));
            assert(spec_sizeof_type(t) == 2);
        } else if n == "i16"@ {
            assert(crate::expr::spec_primitive_to_c(n) == "int16_t"@);
            assert(c_scalar_bytes("int16_t"@) == Some(2nat));
            assert(spec_sizeof_type(t) == 2);
        } else if n == "u32"@ {
            assert(crate::expr::spec_primitive_to_c(n) == "uint32_t"@);
            assert(c_scalar_bytes("uint32_t"@) == Some(4nat));
            assert(spec_sizeof_type(t) == 4);
        } else if n == "i32"@ {
            assert(crate::expr::spec_primitive_to_c(n) == "int32_t"@);
            assert(c_scalar_bytes("int32_t"@) == Some(4nat));
            assert(spec_sizeof_type(t) == 4);
        } else if n == "f32"@ {
            assert(crate::expr::spec_primitive_to_c(n) == "float"@);
            assert(c_scalar_bytes("float"@) == Some(4nat));
            assert(spec_sizeof_type(t) == 4);
        } else if n == "u64"@ {
            assert(crate::expr::spec_primitive_to_c(n) == "uint64_t"@);
            assert(c_scalar_bytes("uint64_t"@) == Some(8nat));
            assert(spec_sizeof_type(t) == 8);
        } else if n == "i64"@ {
            assert(crate::expr::spec_primitive_to_c(n) == "int64_t"@);
            assert(c_scalar_bytes("int64_t"@) == Some(8nat));
            assert(spec_sizeof_type(t) == 8);
        } else if n == "f64"@ {
            assert(crate::expr::spec_primitive_to_c(n) == "double"@);
            assert(c_scalar_bytes("double"@) == Some(8nat));
            assert(spec_sizeof_type(t) == 8);
        } else if n == "string"@ {
            assert(crate::expr::spec_primitive_to_c(n) == "const char *"@);
            assert(c_scalar_bytes("const char *"@) is None);
        } else {
            assert(crate::expr::spec_primitive_to_c(n) == "int"@);
            assert(c_scalar_bytes("int"@) is None);
        }
    }
    assert(fs.push(f).drop_last() =~= fs);
}


proof fn lemma_max_payload(evs: Seq<EventObject>)
    ensures
        forall|i: int| 0 <= i < evs.len() ==> spec_sizeof_params(#[trigger] evs[i].payload@) <= spec_max_payload(evs),
        evs.len() == 0 ==> spec_max_payload(evs) == 0,
        evs.len() > 0 ==> exists|i: int| 0 <= i < evs.len() && spec_max_payload(evs) == spec_sizeof_params(#[trigger] evs[i].payload@),
    decreases evs.len(),
{
    if evs.len() > 0 {
        let rest = evs.drop_last();
        lemma_max_payload(rest);
        assert forall|i: int| 0 <= i < evs.len() implies spec_sizeof_params(#[trigger] evs[i].payload@) <= spec_max_payload(evs) by {
            if i < evs.len() - 1 {
                assert(rest[i] == evs[i]);
            }
        }
        let last = evs.len() - 1;
        if spec_sizeof_params(evs[last].payload@) > spec_max_payload(rest) || rest.len() == 0 {
            assert(spec_max_payload(evs) == spec_sizeof_params(evs[last].payload@));
        } else {
            let w = choose|i: int| 0 <= i < rest.len() && spec_max_payload(rest) == spec_sizeof_params(#[trigger] rest[i].payload@);
            assert(rest[w] == evs[w]);
            assert(spec_max_payload(evs) == spec_sizeof_params(evs[w].payload@));
        }
    }
}

/// The RAM budget of a machine is the size of the machine struct it emits:
/// the context, the event queue (capacity times the event size, which is a
/// one-byte tag plus the largest event payload), the history slots, one
/// `uint32_t` countdown per timer and the bookkeeping bytes of the queue,
/// the watchdog and the `_active[]` slots.
pub proof fn law_budget_counts_struct_members(b: MemoryBudget, m: MachineObject, config: CodegenConfig)
    requires
        spec_budget_matches(b, m, config),
    ensures
        b.total_ram_bytes == b.sizeof_machine,
        b.sizeof_machine == b.sizeof_context + b.queue_bytes + b.history_bytes + b.timer_bytes + 5 + leaves_region(m.root),
        b.sizeof_context == spec_sizeof_context(m.context.fields@),
        c_scalar_bytes("uint32_t"@) == Some(4nat),
        b.timer_bytes == states_count(m.root.states@, TreeCount::Timers) * 4,
        b.queue_bytes == config.queue_capacity * spec_sizeof_event(m),
        forall|i: int| 0 <= i < m.events@.len() ==> 1 + spec_sizeof_params(#[trigger] m.events@[i].payload@) <= spec_sizeof_event(m),
        m.events@.len() == 0 ==> spec_sizeof_event(m) == 1,
        m.events@.len() > 0 ==> exists|i: int| 0 <= i < m.events@.len() && spec_sizeof_event(m) == 1 + spec_sizeof_params(#[trigger] m.events@[i].payload@),
{
    lemma_c_scalar_table();
    lemma_max_payload(m.events@);
    if m.events@.len() > 0 {
        let w = choose|i: int| 0 <= i < m.events@.len() && spec_max_payload(m.events@) == spec_sizeof_params(#[trigger] m.events@[i].payload@);
        assert(spec_sizeof_event(m) == 1 + spec_sizeof_params(m.events@[w].payload@));
    }
}

} // verus!
