//! Lookups in the state tree by IR id: the target of an initial vertex,
//! a composite or parallel state, and the branches of a choice or
//! junction. Each finds the first match in document order, depth first.

use vstd::prelude::*;

use crate::ir::{ChoiceBranch, CompositeState, MachineObject, ParallelState, RegionObject, StateNode};
use crate::text::str_eq;

verus! {

pub open spec fn spec_init_target_node(s: StateNode, id: Seq<char>) -> Option<Seq<char>>
    decreases s,
{
    match s {
        StateNode::Initial(i) => if i.id@ == id { Some(i.target@) } else { None },
        StateNode::Composite(c) => spec_init_target_regions(c.regions@, id),
        StateNode::Parallel(p) => spec_init_target_regions(p.regions@, id),
        _ => None,
    }
}

pub open spec fn spec_init_target_regions(rs: Seq<RegionObject>, id: Seq<char>) -> Option<Seq<char>>
    decreases rs,
{
    if rs.len() == 0 {
        None
    } else {
        match spec_init_target_regions(rs.drop_last(), id) {
            Some(v) => Some(v),
            None => spec_init_target_states(rs.last().states@, id),
        }
    }
}

pub open spec fn spec_init_target_states(ss: Seq<StateNode>, id: Seq<char>) -> Option<Seq<char>>
    decreases ss,
{
    if ss.len() == 0 {
        None
    } else {
        match spec_init_target_states(ss.drop_last(), id) {
            Some(v) => Some(v),
            None => spec_init_target_node(ss.last(), id),
        }
    }
}

proof fn lemma_init_target_regions_prefix(rs: Seq<RegionObject>, k: int, id: Seq<char>)
    requires
        0 <= k <= rs.len(),
        spec_init_target_regions(rs.take(k), id) is Some,
    ensures
        spec_init_target_regions(rs, id) == spec_init_target_regions(rs.take(k), id),
    decreases rs.len(),
{
    if k < rs.len() {
        assert(rs.drop_last().take(k) =~= rs.take(k));
        lemma_init_target_regions_prefix(rs.drop_last(), k, id);
    } else {
        assert(rs.take(k) =~= rs);
    }
}

proof fn lemma_init_target_states_prefix(ss: Seq<StateNode>, k: int, id: Seq<char>)
    requires
        0 <= k <= ss.len(),
        spec_init_target_states(ss.take(k), id) is Some,
    ensures
        spec_init_target_states(ss, id) == spec_init_target_states(ss.take(k), id),
    decreases ss.len(),
{
    if k < ss.len() {
        assert(ss.drop_last().take(k) =~= ss.take(k));
        lemma_init_target_states_prefix(ss.drop_last(), k, id);
    } else {
        assert(ss.take(k) =~= ss);
    }
}

fn init_target_node<'a>(s: &'a StateNode, id: &str) -> (r: Option<String>)
    ensures
        match spec_init_target_node(*s, id@) {
            Some(v) => r matches Some(x) && x@ == v,
            None => r is None,
        },
    decreases s,
{
    match s {
        StateNode::Initial(i) => if str_eq(i.id.as_str(), id) { Some(i.target.clone()) } else { None },
        StateNode::Composite(c) => init_target_regions(&c.regions, id),
        StateNode::Parallel(p) => init_target_regions(&p.regions, id),
        _ => None,
    }
}

fn init_target_regions<'a>(rs: &'a Vec<RegionObject>, id: &str) -> (r: Option<String>)
    ensures
        match spec_init_target_regions(rs@, id@) {
            Some(v) => r matches Some(x) && x@ == v,
            None => r is None,
        },
    decreases rs,
{
    let mut i: usize = 0;
    while i < rs.len()
        invariant
            i <= rs.len(),
            spec_init_target_regions(rs@.take(i as int), id@) is None,
        decreases rs.len() - i,
    {
        assert(rs@.take(i + 1).drop_last() =~= rs@.take(i as int));
        let hit = init_target_states(&rs[i].states, id);
        if hit.is_some() {
            proof {
                lemma_init_target_regions_prefix(rs@, i + 1, id@);
            }
            return hit;
        }
        i += 1;
    }
    assert(rs@.take(i as int) =~= rs@);
    None
}

fn init_target_states<'a>(ss: &'a Vec<StateNode>, id: &str) -> (r: Option<String>)
    ensures
        match spec_init_target_states(ss@, id@) {
            Some(v) => r matches Some(x) && x@ == v,
            None => r is None,
        },
    decreases ss,
{
    let mut i: usize = 0;
    while i < ss.len()
        invariant
            i <= ss.len(),
            spec_init_target_states(ss@.take(i as int), id@) is None,
        decreases ss.len() - i,
    {
        assert(ss@.take(i + 1).drop_last() =~= ss@.take(i as int));
        let hit = init_target_node(&ss[i], id);
        if hit.is_some() {
            proof {
                lemma_init_target_states_prefix(ss@, i + 1, id@);
            }
            return hit;
        }
        i += 1;
    }
    assert(ss@.take(i as int) =~= ss@);
    None
}

pub open spec fn spec_composite_node(s: StateNode, id: Seq<char>) -> Option<CompositeState>
    decreases s,
{
    match s {
        StateNode::Composite(c) => if c.id@ == id { Some(c) } else { spec_composite_regions(c.regions@, id) },
        StateNode::Parallel(p) => spec_composite_regions(p.regions@, id),
        _ => None,
    }
}

pub open spec fn spec_composite_regions(rs: Seq<RegionObject>, id: Seq<char>) -> Option<CompositeState>
    decreases rs,
{
    if rs.len() == 0 {
        None
    } else {
        match spec_composite_regions(rs.drop_last(), id) {
            Some(v) => Some(v),
            None => spec_composite_states(rs.last().states@, id),
        }
    }
}

pub open spec fn spec_composite_states(ss: Seq<StateNode>, id: Seq<char>) -> Option<CompositeState>
    decreases ss,
{
    if ss.len() == 0 {
        None
    } else {
        match spec_composite_states(ss.drop_last(), id) {
            Some(v) => Some(v),
            None => spec_composite_node(ss.last(), id),
        }
    }
}

proof fn lemma_composite_regions_prefix(rs: Seq<RegionObject>, k: int, id: Seq<char>)
    requires
        0 <= k <= rs.len(),
        spec_composite_regions(rs.take(k), id) is Some,
    ensures
        spec_composite_regions(rs, id) == spec_composite_regions(rs.take(k), id),
    decreases rs.len(),
{
    if k < rs.len() {
        assert(rs.drop_last().take(k) =~= rs.take(k));
        lemma_composite_regions_prefix(rs.drop_last(), k, id);
    } else {
        assert(rs.take(k) =~= rs);
    }
}

proof fn lemma_composite_states_prefix(ss: Seq<StateNode>, k: int, id: Seq<char>)
    requires
        0 <= k <= ss.len(),
        spec_composite_states(ss.take(k), id) is Some,
    ensures
        spec_composite_states(ss, id) == spec_composite_states(ss.take(k), id),
    decreases ss.len(),
{
    if k < ss.len() {
        assert(ss.drop_last().take(k) =~= ss.take(k));
        lemma_composite_states_prefix(ss.drop_last(), k, id);
    } else {
        assert(ss.take(k) =~= ss);
    }
}

fn composite_node<'a>(s: &'a StateNode, id: &str) -> (r: Option<&'a CompositeState>)
    ensures
        match spec_composite_node(*s, id@) {
            Some(v) => r matches Some(x) && *x == v,
            None => r is None,
        },
    decreases s,
{
    match s {
        StateNode::Composite(c) => if str_eq(c.id.as_str(), id) { Some(c) } else { composite_regions(&c.regions, id) },
        StateNode::Parallel(p) => composite_regions(&p.regions, id),
        _ => None,
    }
}

fn composite_regions<'a>(rs: &'a Vec<RegionObject>, id: &str) -> (r: Option<&'a CompositeState>)
    ensures
        match spec_composite_regions(rs@, id@) {
            Some(v) => r matches Some(x) && *x == v,
            None => r is None,
        },
    decreases rs,
{
    let mut i: usize = 0;
    while i < rs.len()
        invariant
            i <= rs.len(),
            spec_composite_regions(rs@.take(i as int), id@) is None,
        decreases rs.len() - i,
    {
        assert(rs@.take(i + 1).drop_last() =~= rs@.take(i as int));
        let hit = composite_states(&rs[i].states, id);
        if hit.is_some() {
            proof {
                lemma_composite_regions_prefix(rs@, i + 1, id@);
            }
            return hit;
        }
        i += 1;
    }
    assert(rs@.take(i as int) =~= rs@);
    None
}

fn composite_states<'a>(ss: &'a Vec<StateNode>, id: &str) -> (r: Option<&'a CompositeState>)
    ensures
        match spec_composite_states(ss@, id@) {
            Some(v) => r matches Some(x) && *x == v,
            None => r is None,
        },
    decreases ss,
{
    let mut i: usize = 0;
    while i < ss.len()
        invariant
            i <= ss.len(),
            spec_composite_states(ss@.take(i as int), id@) is None,
        decreases ss.len() - i,
    {
        assert(ss@.take(i + 1).drop_last() =~= ss@.take(i as int));
        let hit = composite_node(&ss[i], id);
        if hit.is_some() {
            proof {
                lemma_composite_states_prefix(ss@, i + 1, id@);
            }
            return hit;
        }
        i += 1;
    }
    assert(ss@.take(i as int) =~= ss@);
    None
}

pub open spec fn spec_parallel_node(s: StateNode, id: Seq<char>) -> Option<ParallelState>
    decreases s,
{
    match s {
        StateNode::Parallel(p) => if p.id@ == id { Some(p) } else { spec_parallel_regions(p.regions@, id) },
        StateNode::Composite(c) => spec_parallel_regions(c.regions@, id),
        _ => None,
    }
}

pub open spec fn spec_parallel_regions(rs: Seq<RegionObject>, id: Seq<char>) -> Option<ParallelState>
    decreases rs,
{
    if rs.len() == 0 {
        None
    } else {
        match spec_parallel_regions(rs.drop_last(), id) {
            Some(v) => Some(v),
            None => spec_parallel_states(rs.last().states@, id),
        }
    }
}

pub open spec fn spec_parallel_states(ss: Seq<StateNode>, id: Seq<char>) -> Option<ParallelState>
    decreases ss,
{
    if ss.len() == 0 {
        None
    } else {
        match spec_parallel_states(ss.drop_last(), id) {
            Some(v) => Some(v),
            None => spec_parallel_node(ss.last(), id),
        }
    }
}

proof fn lemma_parallel_regions_prefix(rs: Seq<RegionObject>, k: int, id: Seq<char>)
    requires
        0 <= k <= rs.len(),
        spec_parallel_regions(rs.take(k), id) is Some,
    ensures
        spec_parallel_regions(rs, id) == spec_parallel_regions(rs.take(k), id),
    decreases rs.len(),
{
    if k < rs.len() {
        assert(rs.drop_last().take(k) =~= rs.take(k));
        lemma_parallel_regions_prefix(rs.drop_last(), k, id);
    } else {
        assert(rs.take(k) =~= rs);
    }
}

proof fn lemma_parallel_states_prefix(ss: Seq<StateNode>, k: int, id: Seq<char>)
    requires
        0 <= k <= ss.len(),
        spec_parallel_states(ss.take(k), id) is Some,
    ensures
        spec_parallel_states(ss, id) == spec_parallel_states(ss.take(k), id),
    decreases ss.len(),
{
    if k < ss.len() {
        assert(ss.drop_last().take(k) =~= ss.take(k));
        lemma_parallel_states_prefix(ss.drop_last(), k, id);
    } else {
        assert(ss.take(k) =~= ss);
    }
}

fn parallel_node<'a>(s: &'a StateNode, id: &str) -> (r: Option<&'a ParallelState>)
    ensures
        match spec_parallel_node(*s, id@) {
            Some(v) => r matches Some(x) && *x == v,
            None => r is None,
        },
    decreases s,
{
    match s {
        StateNode::Parallel(p) => if str_eq(p.id.as_str(), id) { Some(p) } else { parallel_regions(&p.regions, id) },
        StateNode::Composite(c) => parallel_regions(&c.regions, id),
        _ => None,
    }
}

fn parallel_regions<'a>(rs: &'a Vec<RegionObject>, id: &str) -> (r: Option<&'a ParallelState>)
    ensures
        match spec_parallel_regions(rs@, id@) {
            Some(v) => r matches Some(x) && *x == v,
            None => r is None,
        },
    decreases rs,
{
    let mut i: usize = 0;
    while i < rs.len()
        invariant
            i <= rs.len(),
            spec_parallel_regions(rs@.take(i as int), id@) is None,
        decreases rs.len() - i,
    {
        assert(rs@.take(i + 1).drop_last() =~= rs@.take(i as int));
        let hit = parallel_states(&rs[i].states, id);
        if hit.is_some() {
            proof {
                lemma_parallel_regions_prefix(rs@, i + 1, id@);
            }
            return hit;
        }
        i += 1;
    }
    assert(rs@.take(i as int) =~= rs@);
    None
}

fn parallel_states<'a>(ss: &'a Vec<StateNode>, id: &str) -> (r: Option<&'a ParallelState>)
    ensures
        match spec_parallel_states(ss@, id@) {
            Some(v) => r matches Some(x) && *x == v,
            None => r is None,
        },
    decreases ss,
{
    let mut i: usize = 0;
    while i < ss.len()
        invariant
            i <= ss.len(),
            spec_parallel_states(ss@.take(i as int), id@) is None,
        decreases ss.len() - i,
    {
        assert(ss@.take(i + 1).drop_last() =~= ss@.take(i as int));
        let hit = parallel_node(&ss[i], id);
        if hit.is_some() {
            proof {
                lemma_parallel_states_prefix(ss@, i + 1, id@);
            }
            return hit;
        }
        i += 1;
    }
    assert(ss@.take(i as int) =~= ss@);
    None
}

pub open spec fn spec_branches_node(s: StateNode, id: Seq<char>) -> Option<Seq<ChoiceBranch>>
    decreases s,
{
    match s {
        StateNode::Choice(c) => if c.id@ == id { Some(c.branches@) } else { None },
        StateNode::Junction(j) => if j.id@ == id { Some(j.branches@) } else { None },
        StateNode::Composite(c) => spec_branches_regions(c.regions@, id),
        StateNode::Parallel(p) => spec_branches_regions(p.regions@, id),
        _ => None,
    }
}

pub open spec fn spec_branches_regions(rs: Seq<RegionObject>, id: Seq<char>) -> Option<Seq<ChoiceBranch>>
    decreases rs,
{
    if rs.len() == 0 {
        None
    } else {
        match spec_branches_regions(rs.drop_last(), id) {
            Some(v) => Some(v),
            None => spec_branches_states(rs.last().states@, id),
        }
    }
}

pub open spec fn spec_branches_states(ss: Seq<StateNode>, id: Seq<char>) -> Option<Seq<ChoiceBranch>>
    decreases ss,
{
    if ss.len() == 0 {
        None
    } else {
        match spec_branches_states(ss.drop_last(), id) {
            Some(v) => Some(v),
            None => spec_branches_node(ss.last(), id),
        }
    }
}

proof fn lemma_branches_regions_prefix(rs: Seq<RegionObject>, k: int, id: Seq<char>)
    requires
        0 <= k <= rs.len(),
        spec_branches_regions(rs.take(k), id) is Some,
    ensures
        spec_branches_regions(rs, id) == spec_branches_regions(rs.take(k), id),
    decreases rs.len(),
{
    if k < rs.len() {
        assert(rs.drop_last().take(k) =~= rs.take(k));
        lemma_branches_regions_prefix(rs.drop_last(), k, id);
    } else {
        assert(rs.take(k) =~= rs);
    }
}

proof fn lemma_branches_states_prefix(ss: Seq<StateNode>, k: int, id: Seq<char>)
    requires
        0 <= k <= ss.len(),
        spec_branches_states(ss.take(k), id) is Some,
    ensures
        spec_branches_states(ss, id) == spec_branches_states(ss.take(k), id),
    decreases ss.len(),
{
    if k < ss.len() {
        assert(ss.drop_last().take(k) =~= ss.take(k));
        lemma_branches_states_prefix(ss.drop_last(), k, id);
    } else {
        assert(ss.take(k) =~= ss);
    }
}

fn branches_node<'a>(s: &'a StateNode, id: &str) -> (r: Option<&'a Vec<ChoiceBranch>>)
    ensures
        match spec_branches_node(*s, id@) {
            Some(v) => r matches Some(x) && x@ == v,
            None => r is None,
        },
    decreases s,
{
    match s {
        StateNode::Choice(c) => if str_eq(c.id.as_str(), id) { Some(&c.branches) } else { None },
        StateNode::Junction(j) => if str_eq(j.id.as_str(), id) { Some(&j.branches) } else { None },
        StateNode::Composite(c) => branches_regions(&c.regions, id),
        StateNode::Parallel(p) => branches_regions(&p.regions, id),
        _ => None,
    }
}

fn branches_regions<'a>(rs: &'a Vec<RegionObject>, id: &str) -> (r: Option<&'a Vec<ChoiceBranch>>)
    ensures
        match spec_branches_regions(rs@, id@) {
            Some(v) => r matches Some(x) && x@ == v,
            None => r is None,
        },
    decreases rs,
{
    let mut i: usize = 0;
    while i < rs.len()
        invariant
            i <= rs.len(),
            spec_branches_regions(rs@.take(i as int), id@) is None,
        decreases rs.len() - i,
    {
        assert(rs@.take(i + 1).drop_last() =~= rs@.take(i as int));
        let hit = branches_states(&rs[i].states, id);
        if hit.is_some() {
            proof {
                lemma_branches_regions_prefix(rs@, i + 1, id@);
            }
            return hit;
        }
        i += 1;
    }
    assert(rs@.take(i as int) =~= rs@);
    None
}

fn branches_states<'a>(ss: &'a Vec<StateNode>, id: &str) -> (r: Option<&'a Vec<ChoiceBranch>>)
    ensures
        match spec_branches_states(ss@, id@) {
            Some(v) => r matches Some(x) && x@ == v,
            None => r is None,
        },
    decreases ss,
{
    let mut i: usize = 0;
    while i < ss.len()
        invariant
            i <= ss.len(),
            spec_branches_states(ss@.take(i as int), id@) is None,
        decreases ss.len() - i,
    {
        assert(ss@.take(i + 1).drop_last() =~= ss@.take(i as int));
        let hit = branches_node(&ss[i], id);
        if hit.is_some() {
            proof {
                lemma_branches_states_prefix(ss@, i + 1, id@);
            }
            return hit;
        }
        i += 1;
    }
    assert(ss@.take(i as int) =~= ss@);
    None
}

/// The target IR id of the initial vertex `id`.
pub open spec fn spec_find_initial_target(m: MachineObject, id: Seq<char>) -> Option<Seq<char>> {
    spec_init_target_states(m.root.states@, id)
}

/// The target IR id of the initial vertex with IR id `ir_id`, if the
/// machine has one.
pub fn find_initial_target(machine: &MachineObject, ir_id: &str) -> (r: Option<String>)
    ensures
        match spec_find_initial_target(*machine, ir_id@) {
            Some(v) => r matches Some(x) && x@ == v,
            None => r is None,
        },
{
    init_target_states(&machine.root.states, ir_id)
}

/// The composite state `id`.
pub open spec fn spec_find_composite(m: MachineObject, id: Seq<char>) -> Option<CompositeState> {
    spec_composite_states(m.root.states@, id)
}

/// The composite state with IR id `id`, if any.
pub fn find_composite<'a>(m: &'a MachineObject, id: &str) -> (r: Option<&'a CompositeState>)
    ensures
        match spec_find_composite(*m, id@) {
            Some(v) => r matches Some(x) && *x == v,
            None => r is None,
        },
{
    composite_states(&m.root.states, id)
}

/// The parallel state `id`.
pub open spec fn spec_find_parallel(m: MachineObject, id: Seq<char>) -> Option<ParallelState> {
    spec_parallel_states(m.root.states@, id)
}

/// The parallel state with IR id `id`, if any.
pub fn find_parallel<'a>(m: &'a MachineObject, id: &str) -> (r: Option<&'a ParallelState>)
    ensures
        match spec_find_parallel(*m, id@) {
            Some(v) => r matches Some(x) && *x == v,
            None => r is None,
        },
{
    parallel_states(&m.root.states, id)
}

/// The branches of the choice or junction `id`.
pub open spec fn spec_branches_of(m: MachineObject, id: Seq<char>) -> Option<Seq<ChoiceBranch>> {
    spec_branches_states(m.root.states@, id)
}

/// The branches of the choice or junction vertex with IR id `id`, if any.
pub fn branches_of<'a>(m: &'a MachineObject, id: &str) -> (r: Option<&'a Vec<ChoiceBranch>>)
    ensures
        match spec_branches_of(*m, id@) {
            Some(v) => r matches Some(x) && x@ == v,
            None => r is None,
        },
{
    branches_states(&m.root.states, id)
}

} // verus!
