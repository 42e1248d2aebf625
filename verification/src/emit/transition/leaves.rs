//! The states below a composite or parallel state, as the exit of a
//! transition needs them: the leaves a composite may have active, and the
//! leaves of every region of a parallel.

use vstd::prelude::*;

use crate::emit::{CtxView, MachineEmitCtx};
use crate::ir::{MachineObject, RegionObject, StateNode};
use crate::state_index::{lemma_lookup_range, spec_lookup, RecordView, StateIndex, StateRecordKind};

use super::find::{find_composite, find_parallel, spec_find_composite, spec_find_parallel};

verus! {

/// The IR ids of the leaves (simple, final and reference states) of a
/// state tree, depth first.
pub open spec fn spec_leaf_ids_node(s: StateNode) -> Seq<Seq<char>>
    decreases s,
{
    match s {
        StateNode::Simple(x) => seq![x.id@],
        StateNode::Final(f) => seq![f.id@],
        StateNode::Submachine(x) => seq![x.id@],
        StateNode::Composite(c) => spec_leaf_ids_regions(c.regions@),
        StateNode::Parallel(p) => spec_leaf_ids_regions(p.regions@),
        _ => Seq::empty(),
    }
}

pub open spec fn spec_leaf_ids_regions(rs: Seq<RegionObject>) -> Seq<Seq<char>>
    decreases rs,
{
    if rs.len() == 0 {
        Seq::empty()
    } else {
        spec_leaf_ids_regions(rs.drop_last()) + spec_leaf_ids_states(rs.last().states@)
    }
}

pub open spec fn spec_leaf_ids_states(ss: Seq<StateNode>) -> Seq<Seq<char>>
    decreases ss,
{
    if ss.len() == 0 {
        Seq::empty()
    } else {
        spec_leaf_ids_states(ss.drop_last()) + spec_leaf_ids_node(ss.last())
    }
}

/// The IR ids of every state (leaves, composites and parallels, each
/// before its descendants) of a state tree, depth first.
pub open spec fn spec_inside_ids_node(s: StateNode) -> Seq<Seq<char>>
    decreases s,
{
    match s {
        StateNode::Simple(x) => seq![x.id@],
        StateNode::Final(f) => seq![f.id@],
        StateNode::Submachine(x) => seq![x.id@],
        StateNode::Composite(c) => seq![c.id@] + spec_inside_ids_regions(c.regions@),
        StateNode::Parallel(p) => seq![p.id@] + spec_inside_ids_regions(p.regions@),
        _ => Seq::empty(),
    }
}

pub open spec fn spec_inside_ids_regions(rs: Seq<RegionObject>) -> Seq<Seq<char>>
    decreases rs,
{
    if rs.len() == 0 {
        Seq::empty()
    } else {
        spec_inside_ids_regions(rs.drop_last()) + spec_inside_ids_states(rs.last().states@)
    }
}

pub open spec fn spec_inside_ids_states(ss: Seq<StateNode>) -> Seq<Seq<char>>
    decreases ss,
{
    if ss.len() == 0 {
        Seq::empty()
    } else {
        spec_inside_ids_states(ss.drop_last()) + spec_inside_ids_node(ss.last())
    }
}

pub open spec fn ids_view(v: Seq<String>) -> Seq<Seq<char>> {
    v.map_values(|s: String| s@)
}

fn push_id(out: &mut Vec<String>, id: &String)
    ensures
        ids_view(final(out)@) == ids_view(old(out)@).push(id@),
{
    let ghost o0 = out@;
    out.push(id.clone());
    assert(ids_view(out@) =~= ids_view(o0).push(id@));
}

fn leaf_ids_node(s: &StateNode, out: &mut Vec<String>)
    ensures
        ids_view(final(out)@) == ids_view(old(out)@) + spec_leaf_ids_node(*s),
    decreases s,
{
    let ghost o0 = ids_view(out@);
    match s {
        StateNode::Simple(x) => push_id(out, &x.id),
        StateNode::Final(f) => push_id(out, &f.id),
        StateNode::Submachine(x) => push_id(out, &x.id),
        StateNode::Composite(c) => leaf_ids_regions(&c.regions, out),
        StateNode::Parallel(p) => leaf_ids_regions(&p.regions, out),
        _ => {},
    }
    assert(ids_view(out@) =~= o0 + spec_leaf_ids_node(*s));
}

fn leaf_ids_regions(rs: &Vec<RegionObject>, out: &mut Vec<String>)
    ensures
        ids_view(final(out)@) == ids_view(old(out)@) + spec_leaf_ids_regions(rs@),
    decreases rs,
{
    let ghost o0 = ids_view(out@);
    let mut i: usize = 0;
    assert(o0 + spec_leaf_ids_regions(rs@.take(0)) =~= o0);
    while i < rs.len()
        invariant
            i <= rs.len(),
            ids_view(out@) == o0 + spec_leaf_ids_regions(rs@.take(i as int)),
        decreases rs.len() - i,
    {
        assert(rs@.take(i + 1).drop_last() =~= rs@.take(i as int));
        leaf_ids_states(&rs[i].states, out);
        assert(ids_view(out@) =~= o0 + spec_leaf_ids_regions(rs@.take(i + 1)));
        i += 1;
    }
    assert(rs@.take(i as int) =~= rs@);
}

fn leaf_ids_states(ss: &Vec<StateNode>, out: &mut Vec<String>)
    ensures
        ids_view(final(out)@) == ids_view(old(out)@) + spec_leaf_ids_states(ss@),
    decreases ss,
{
    let ghost o0 = ids_view(out@);
    let mut i: usize = 0;
    assert(o0 + spec_leaf_ids_states(ss@.take(0)) =~= o0);
    while i < ss.len()
        invariant
            i <= ss.len(),
            ids_view(out@) == o0 + spec_leaf_ids_states(ss@.take(i as int)),
        decreases ss.len() - i,
    {
        assert(ss@.take(i + 1).drop_last() =~= ss@.take(i as int));
        leaf_ids_node(&ss[i], out);
        assert(ids_view(out@) =~= o0 + spec_leaf_ids_states(ss@.take(i + 1)));
        i += 1;
    }
    assert(ss@.take(i as int) =~= ss@);
}

fn inside_ids_node(s: &StateNode, out: &mut Vec<String>)
    ensures
        ids_view(final(out)@) == ids_view(old(out)@) + spec_inside_ids_node(*s),
    decreases s,
{
    let ghost o0 = ids_view(out@);
    match s {
        StateNode::Simple(x) => push_id(out, &x.id),
        StateNode::Final(f) => push_id(out, &f.id),
        StateNode::Submachine(x) => push_id(out, &x.id),
        StateNode::Composite(c) => {
            push_id(out, &c.id);
            inside_ids_regions(&c.regions, out);
        },
        StateNode::Parallel(p) => {
            push_id(out, &p.id);
            inside_ids_regions(&p.regions, out);
        },
        _ => {},
    }
    assert(ids_view(out@) =~= o0 + spec_inside_ids_node(*s));
}

fn inside_ids_regions(rs: &Vec<RegionObject>, out: &mut Vec<String>)
    ensures
        ids_view(final(out)@) == ids_view(old(out)@) + spec_inside_ids_regions(rs@),
    decreases rs,
{
    let ghost o0 = ids_view(out@);
    let mut i: usize = 0;
    assert(o0 + spec_inside_ids_regions(rs@.take(0)) =~= o0);
    while i < rs.len()
        invariant
            i <= rs.len(),
            ids_view(out@) == o0 + spec_inside_ids_regions(rs@.take(i as int)),
        decreases rs.len() - i,
    {
        assert(rs@.take(i + 1).drop_last() =~= rs@.take(i as int));
        inside_ids_states(&rs[i].states, out);
        assert(ids_view(out@) =~= o0 + spec_inside_ids_regions(rs@.take(i + 1)));
        i += 1;
    }
    assert(rs@.take(i as int) =~= rs@);
}

fn inside_ids_states(ss: &Vec<StateNode>, out: &mut Vec<String>)
    ensures
        ids_view(final(out)@) == ids_view(old(out)@) + spec_inside_ids_states(ss@),
    decreases ss,
{
    let ghost o0 = ids_view(out@);
    let mut i: usize = 0;
    assert(o0 + spec_inside_ids_states(ss@.take(0)) =~= o0);
    while i < ss.len()
        invariant
            i <= ss.len(),
            ids_view(out@) == o0 + spec_inside_ids_states(ss@.take(i as int)),
        decreases ss.len() - i,
    {
        assert(ss@.take(i + 1).drop_last() =~= ss@.take(i as int));
        inside_ids_node(&ss[i], out);
        assert(ids_view(out@) =~= o0 + spec_inside_ids_states(ss@.take(i + 1)));
        i += 1;
    }
    assert(ss@.take(i as int) =~= ss@);
}

/// The indices of the ids that resolve, in order.
pub open spec fn spec_resolve_ids(recs: Seq<RecordView>, ids: Seq<Seq<char>>) -> Seq<u8>
    decreases ids.len(),
{
    if ids.len() == 0 {
        Seq::empty()
    } else {
        spec_resolve_ids(recs, ids.drop_last()) + match spec_lookup(recs, ids.last()) {
            Some(i) => seq![i as u8],
            None => Seq::empty(),
        }
    }
}

fn resolve_ids(index: &StateIndex, ids: &Vec<String>) -> (r: Vec<u8>)
    requires
        index.wf(),
    ensures
        r@ == spec_resolve_ids(index@, ids_view(ids@)),
        forall|k: int| 0 <= k < r@.len() ==> (#[trigger] r@[k] as int) < index@.len(),
{
    let ghost iv = ids_view(ids@);
    let mut out: Vec<u8> = Vec::new();
    let mut i: usize = 0;
    while i < ids.len()
        invariant
            index.wf(),
            iv == ids_view(ids@),
            i <= ids.len(),
            out@ == spec_resolve_ids(index@, iv.take(i as int)),
            forall|k: int| 0 <= k < out@.len() ==> (#[trigger] out@[k] as int) < index@.len(),
        decreases ids.len() - i,
    {
        assert(iv.take(i + 1).drop_last() =~= iv.take(i as int));
        assert(iv.take(i + 1).last() == ids@[i as int]@);
        let ghost o0 = out@;
        proof {
            lemma_lookup_range(index@, ids@[i as int]@);
        }
        match index.lookup(ids[i].as_str()) {
            Some(x) => {
                out.push(x);
                assert(out@ =~= o0 + seq![x]);
            },
            None => {
                assert(out@ =~= o0 + Seq::<u8>::empty());
            },
        }
        i += 1;
    }
    assert(iv.take(i as int) =~= iv);
    out
}

/// The indexed leaves below the composite `idx`, depth first (none when it
/// is not a composite of the tree).
pub open spec fn spec_composite_descendant_leaves(ctx: CtxView, idx: int) -> Seq<u8> {
    match spec_find_composite(*ctx.machine, ctx.index@[idx].ir_id) {
        Some(c) => spec_resolve_ids(ctx.index@, spec_leaf_ids_regions(c.regions@)),
        None => Seq::empty(),
    }
}

/// The indices of the leaves below composite `composite_idx`, depth first.
pub fn composite_descendant_leaves(ctx: &MachineEmitCtx<'_>, composite_idx: u8) -> (r: Vec<u8>)
    requires
        ctx.index.wf(),
        (composite_idx as int) < ctx.index@.len(),
    ensures
        r@ == spec_composite_descendant_leaves(ctx@, composite_idx as int),
        forall|k: int| 0 <= k < r@.len() ==> (#[trigger] r@[k] as int) < ctx.index@.len(),
{
    let rec = ctx.index.get(composite_idx);
    match find_composite(ctx.machine, rec.ir_id.as_str()) {
        Some(c) => {
            let mut ids: Vec<String> = Vec::new();
            leaf_ids_regions(&c.regions, &mut ids);
            assert(ids_view(ids@) =~= spec_leaf_ids_regions(c.regions@));
            resolve_ids(ctx.index, &ids)
        },
        None => Vec::new(),
    }
}

/// The IR ids of every state inside the parallel `pid` (none when the
/// tree has no such parallel).
pub open spec fn spec_states_inside_parallel(m: MachineObject, pid: Seq<char>) -> Seq<Seq<char>> {
    match spec_find_parallel(m, pid) {
        Some(p) => spec_inside_ids_regions(p.regions@),
        None => Seq::empty(),
    }
}

fn states_inside_parallel(m: &MachineObject, pid: &str) -> (r: Vec<String>)
    ensures
        ids_view(r@) == spec_states_inside_parallel(*m, pid@),
{
    let mut out: Vec<String> = Vec::new();
    assert(ids_view(out@) =~= Seq::<Seq<char>>::empty());
    match find_parallel(m, pid) {
        Some(p) => {
            inside_ids_regions(&p.regions, &mut out);
            assert(ids_view(out@) =~= spec_inside_ids_regions(p.regions@));
        },
        None => {},
    }
    out
}

/// A leaf record: simple, final or reference state.
pub open spec fn spec_is_leaf_kind(k: StateRecordKind) -> bool {
    k == StateRecordKind::Simple || k == StateRecordKind::Final || k == StateRecordKind::Submachine
}

/// The indexed leaves among `ids`, keeping those whose slot is neither
/// `skip_slot` nor 0 when `exclude` is set.
pub open spec fn spec_region_leaves(ctx: CtxView, ids: Seq<Seq<char>>, exclude: bool, skip_slot: u8) -> Seq<u8>
    decreases ids.len(),
{
    if ids.len() == 0 {
        Seq::empty()
    } else {
        spec_region_leaves(ctx, ids.drop_last(), exclude, skip_slot) + match spec_lookup(ctx.index@, ids.last()) {
            Some(i) => if exclude && (ctx.layout.spec_slot(i) == skip_slot || ctx.layout.spec_slot(i) == 0) {
                Seq::empty()
            } else if spec_is_leaf_kind(ctx.index@[i].kind) {
                seq![i as u8]
            } else {
                Seq::empty()
            },
            None => Seq::empty(),
        }
    }
}

fn region_leaves(ctx: &MachineEmitCtx<'_>, ids: &Vec<String>, exclude: bool, skip_slot: u8) -> (r: Vec<u8>)
    requires
        ctx.index.wf(),
    ensures
        r@ == spec_region_leaves(ctx@, ids_view(ids@), exclude, skip_slot),
        forall|k: int| 0 <= k < r@.len() ==> (#[trigger] r@[k] as int) < ctx.index@.len(),
{
    let ghost iv = ids_view(ids@);
    let mut out: Vec<u8> = Vec::new();
    let mut i: usize = 0;
    while i < ids.len()
        invariant
            ctx.index.wf(),
            iv == ids_view(ids@),
            i <= ids.len(),
            out@ == spec_region_leaves(ctx@, iv.take(i as int), exclude, skip_slot),
            forall|k: int| 0 <= k < out@.len() ==> (#[trigger] out@[k] as int) < ctx.index@.len(),
        decreases ids.len() - i,
    {
        assert(iv.take(i + 1).drop_last() =~= iv.take(i as int));
        assert(iv.take(i + 1).last() == ids@[i as int]@);
        let ghost o0 = out@;
        proof {
            lemma_lookup_range(ctx.index@, ids@[i as int]@);
        }
        match ctx.index.lookup(ids[i].as_str()) {
            Some(x) => {
                if exclude && (ctx.layout.slot(x) == skip_slot || ctx.layout.slot(x) == 0) {
                    assert(out@ =~= o0 + Seq::<u8>::empty());
                } else {
                    let k = ctx.index.get(x).kind;
                    if k == StateRecordKind::Simple || k == StateRecordKind::Final || k == StateRecordKind::Submachine {
                        out.push(x);
                        assert(out@ =~= o0 + seq![x]);
                    } else {
                        assert(out@ =~= o0 + Seq::<u8>::empty());
                    }
                }
            },
            None => {
                assert(out@ =~= o0 + Seq::<u8>::empty());
            },
        }
        i += 1;
    }
    assert(iv.take(i as int) =~= iv);
    out
}

/// The leaves of the regions of parallel `parallel_idx` whose slot is
/// neither that of `source_idx` nor 0: the other regions' leaves.
pub fn collect_parallel_region_leaves_excluding(ctx: &MachineEmitCtx<'_>, parallel_idx: u8, source_idx: u8) -> (r: Vec<u8>)
    requires
        ctx.index.wf(),
        (parallel_idx as int) < ctx.index@.len(),
    ensures
        r@ == spec_region_leaves(
            ctx@,
            spec_states_inside_parallel(*ctx.machine, ctx.index@[parallel_idx as int].ir_id),
            true,
            ctx.layout.spec_slot(source_idx as int),
        ),
        forall|k: int| 0 <= k < r@.len() ==> (#[trigger] r@[k] as int) < ctx.index@.len(),
{
    let rec = ctx.index.get(parallel_idx);
    let ids = states_inside_parallel(ctx.machine, rec.ir_id.as_str());
    region_leaves(ctx, &ids, true, ctx.layout.slot(source_idx))
}

/// The leaves of every region of parallel `parallel_idx`, depth first.
pub fn collect_parallel_region_leaves_all(ctx: &MachineEmitCtx<'_>, parallel_idx: u8) -> (r: Vec<u8>)
    requires
        ctx.index.wf(),
        (parallel_idx as int) < ctx.index@.len(),
    ensures
        r@ == spec_region_leaves(
            ctx@,
            spec_states_inside_parallel(*ctx.machine, ctx.index@[parallel_idx as int].ir_id),
            false,
            0,
        ),
        forall|k: int| 0 <= k < r@.len() ==> (#[trigger] r@[k] as int) < ctx.index@.len(),
{
    let rec = ctx.index.get(parallel_idx);
    let ids = states_inside_parallel(ctx.machine, rec.ir_id.as_str());
    region_leaves(ctx, &ids, false, 0)
}

} // verus!
