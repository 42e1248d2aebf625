//! History helpers: for every composite with a history vertex, a
//! `record` function that remembers the live leaf before the composite is
//! exited, and a `restore` function that re-enters the remembered child
//! (or the history's default) down to its leaf.

use vstd::prelude::*;

use crate::ir::{HistoryObject, RegionObject, StateNode};
use crate::state_index::{lemma_lookup_range, spec_active_at_rest, spec_c_ident, spec_lookup, StateRecord, StateRecordKind};
use crate::text::{push_decimal, spec_decimal, str_eq};

use super::submachine::{emit_sub_init, ref_state_member, spec_collect_sub_refs, spec_first_subref, spec_sub_init};
use super::timer::{push_arm_timers, spec_arm_timers, spec_collect_timers, TimerEntry};
use super::trace_hook::{c_string_literal, spec_c_string_literal};
use super::transition::enter::{enter_ok, lemma_initial_chain, resolve_initial_chain, spec_initial_chain};
use super::transition::find::{find_composite, find_parallel, spec_find_composite, spec_find_parallel};
use super::{CtxView, MachineEmitCtx};

verus! {

// ---------------------------------------------------------------------
// The history declared by a composite
// ---------------------------------------------------------------------

/// The scan of sibling states for composite `id`: `Some(h)` when a level
/// returned (the composite's declared history, possibly none), `None`
/// when the scan fell through.
pub open spec fn spec_hist_scan(ss: Seq<StateNode>, id: Seq<char>) -> Option<Option<HistoryObject>>
    decreases ss,
{
    if ss.len() == 0 {
        None
    } else {
        match spec_hist_scan(ss.drop_last(), id) {
            Some(x) => Some(x),
            None => spec_hist_node(ss.last(), id),
        }
    }
}

pub open spec fn spec_hist_node(s: StateNode, id: Seq<char>) -> Option<Option<HistoryObject>>
    decreases s,
{
    match s {
        StateNode::Composite(c) => if c.id@ == id {
            Some(c.history)
        } else {
            match spec_hist_regions(c.regions@, id) {
                Some(h) => Some(Some(h)),
                None => None,
            }
        },
        StateNode::Parallel(p) => match spec_hist_regions(p.regions@, id) {
            Some(h) => Some(Some(h)),
            None => None,
        },
        _ => None,
    }
}

pub open spec fn spec_hist_regions(rs: Seq<RegionObject>, id: Seq<char>) -> Option<HistoryObject>
    decreases rs,
{
    if rs.len() == 0 {
        None
    } else {
        match spec_hist_regions(rs.drop_last(), id) {
            Some(h) => Some(h),
            None => match spec_hist_scan(rs.last().states@, id) {
                Some(x) => x,
                None => None,
            },
        }
    }
}

proof fn lemma_hist_scan_prefix(ss: Seq<StateNode>, k: int, id: Seq<char>)
    requires
        0 <= k <= ss.len(),
        spec_hist_scan(ss.take(k), id) is Some,
    ensures
        spec_hist_scan(ss, id) == spec_hist_scan(ss.take(k), id),
    decreases ss.len(),
{
    if k < ss.len() {
        assert(ss.drop_last().take(k) =~= ss.take(k));
        lemma_hist_scan_prefix(ss.drop_last(), k, id);
    } else {
        assert(ss.take(k) =~= ss);
    }
}

proof fn lemma_hist_regions_prefix(rs: Seq<RegionObject>, k: int, id: Seq<char>)
    requires
        0 <= k <= rs.len(),
        spec_hist_regions(rs.take(k), id) is Some,
    ensures
        spec_hist_regions(rs, id) == spec_hist_regions(rs.take(k), id),
    decreases rs.len(),
{
    if k < rs.len() {
        assert(rs.drop_last().take(k) =~= rs.take(k));
        lemma_hist_regions_prefix(rs.drop_last(), k, id);
    } else {
        assert(rs.take(k) =~= rs);
    }
}

fn hist_scan<'a>(ss: &'a Vec<StateNode>, id: &str) -> (r: Option<Option<&'a HistoryObject>>)
    ensures
        match spec_hist_scan(ss@, id@) {
            Some(Some(h)) => r matches Some(Some(x)) && *x == h,
            Some(None) => r matches Some(None),
            None => r is None,
        },
    decreases ss,
{
    let mut i: usize = 0;
    while i < ss.len()
        invariant
            i <= ss.len(),
            spec_hist_scan(ss@.take(i as int), id@) is None,
        decreases ss.len() - i,
    {
        assert(ss@.take(i + 1).drop_last() =~= ss@.take(i as int));
        let hit = hist_node(&ss[i], id);
        if hit.is_some() {
            proof {
                lemma_hist_scan_prefix(ss@, i + 1, id@);
            }
            return hit;
        }
        i += 1;
    }
    assert(ss@.take(i as int) =~= ss@);
    None
}

fn hist_node<'a>(s: &'a StateNode, id: &str) -> (r: Option<Option<&'a HistoryObject>>)
    ensures
        match spec_hist_node(*s, id@) {
            Some(Some(h)) => r matches Some(Some(x)) && *x == h,
            Some(None) => r matches Some(None),
            None => r is None,
        },
    decreases s,
{
    match s {
        StateNode::Composite(c) => {
            if str_eq(c.id.as_str(), id) {
                match &c.history {
                    Some(h) => Some(Some(h)),
                    None => Some(None),
                }
            } else {
                match hist_regions(&c.regions, id) {
                    Some(h) => Some(Some(h)),
                    None => None,
                }
            }
        },
        StateNode::Parallel(p) => match hist_regions(&p.regions, id) {
            Some(h) => Some(Some(h)),
            None => None,
        },
        _ => None,
    }
}

fn hist_regions<'a>(rs: &'a Vec<RegionObject>, id: &str) -> (r: Option<&'a HistoryObject>)
    ensures
        match spec_hist_regions(rs@, id@) {
            Some(h) => r matches Some(x) && *x == h,
            None => r is None,
        },
    decreases rs,
{
    let mut i: usize = 0;
    while i < rs.len()
        invariant
            i <= rs.len(),
            spec_hist_regions(rs@.take(i as int), id@) is None,
        decreases rs.len() - i,
    {
        assert(rs@.take(i + 1).drop_last() =~= rs@.take(i as int));
        match hist_scan(&rs[i].states, id) {
            Some(Some(h)) => {
                proof {
                    lemma_hist_regions_prefix(rs@, i + 1, id@);
                }
                return Some(h);
            },
            _ => {},
        }
        i += 1;
    }
    assert(rs@.take(i as int) =~= rs@);
    None
}

/// The index of the default target of the history declared by composite
/// `cid`, when it has one and the target was indexed.
pub open spec fn spec_history_default(ctx: CtxView, cid: Seq<char>) -> Option<int> {
    match spec_hist_scan(ctx.machine.root.states@, cid) {
        Some(Some(h)) => spec_lookup(ctx.index@, h.default_target@),
        _ => None,
    }
}

fn history_default(ctx: &MachineEmitCtx<'_>, cid: &str) -> (r: Option<u8>)
    requires
        ctx.index.wf(),
    ensures
        crate::state_index::opt_u8_view(r) == spec_history_default(ctx@, cid@),
        r matches Some(x) ==> (x as int) < ctx.index@.len(),
{
    match hist_scan(&ctx.machine.root.states, cid) {
        Some(Some(h)) => {
            proof {
                lemma_lookup_range(ctx.index@, h.default_target@);
            }
            ctx.index.lookup(h.default_target.as_str())
        },
        _ => None,
    }
}

// ---------------------------------------------------------------------
// The chains a restore enters
// ---------------------------------------------------------------------

/// The initial-chain expansion below state `idx` (within `fuel` levels):
/// each region's settled initial vertex followed by its own expansion.
pub open spec fn spec_expand(ctx: CtxView, idx: int, fuel: nat) -> Seq<u8>
    decreases fuel, 0int,
{
    if fuel == 0 {
        Seq::empty()
    } else {
        let rec = ctx.index@[idx];
        match rec.kind {
            StateRecordKind::Composite => match spec_find_composite(*ctx.machine, rec.ir_id) {
                Some(c) => if c.regions@.len() > 0 {
                    spec_expand_region(ctx, c.regions@[0], (fuel - 1) as nat)
                } else {
                    Seq::empty()
                },
                None => Seq::empty(),
            },
            StateRecordKind::Parallel => match spec_find_parallel(*ctx.machine, rec.ir_id) {
                Some(q) => spec_expand_regions(ctx, q.regions@, (fuel - 1) as nat),
                None => Seq::empty(),
            },
            _ => Seq::empty(),
        }
    }
}

pub open spec fn spec_expand_region(ctx: CtxView, r: RegionObject, fuel: nat) -> Seq<u8>
    decreases fuel, 1int,
{
    match spec_lookup(ctx.index@, r.initial@) {
        Some(init) => {
            let ch = spec_initial_chain(ctx, init, 32);
            if ch.len() > 0 && 0 <= ch[0] < ctx.index@.len() {
                seq![ch[0]] + spec_expand(ctx, ch[0] as int, fuel)
            } else {
                Seq::empty()
            }
        },
        None => Seq::empty(),
    }
}

pub open spec fn spec_expand_regions(ctx: CtxView, rs: Seq<RegionObject>, fuel: nat) -> Seq<u8>
    decreases fuel, 2 + rs.len(),
{
    if rs.len() == 0 {
        Seq::empty()
    } else {
        spec_expand_regions(ctx, rs.drop_last(), fuel) + spec_expand_region(ctx, rs.last(), fuel)
    }
}

/// Every element indexes the table.
pub open spec fn idx_in(v: Seq<u8>, n: int) -> bool {
    forall|k: int| 0 <= k < v.len() ==> (#[trigger] v[k] as int) < n
}

fn expand_region(ctx: &MachineEmitCtx<'_>, r: &RegionObject, fuel: u32, out: &mut Vec<u8>)
    requires
        ctx.index.wf(),
        idx_in(old(out)@, ctx.index@.len() as int),
    ensures
        final(out)@ == old(out)@ + spec_expand_region(ctx@, *r, fuel as nat),
        idx_in(final(out)@, ctx.index@.len() as int),
    decreases fuel, 1int,
{
    let ghost o0 = out@;
    match ctx.index.lookup(r.initial.as_str()) {
        Some(init) => {
            proof {
                lemma_lookup_range(ctx.index@, r.initial@);
            }
            let ch = resolve_initial_chain(ctx, init);
            if ch.len() > 0 {
                let leaf = ch[0];
                out.push(leaf);
                expand(ctx, leaf, fuel, out);
                assert(out@ =~= o0 + spec_expand_region(ctx@, *r, fuel as nat));
            } else {
                assert(out@ =~= o0 + spec_expand_region(ctx@, *r, fuel as nat));
            }
        },
        None => {
            assert(out@ =~= o0 + spec_expand_region(ctx@, *r, fuel as nat));
        },
    }
}

fn expand_regions(ctx: &MachineEmitCtx<'_>, rs: &Vec<RegionObject>, fuel: u32, out: &mut Vec<u8>)
    requires
        ctx.index.wf(),
        idx_in(old(out)@, ctx.index@.len() as int),
    ensures
        final(out)@ == old(out)@ + spec_expand_regions(ctx@, rs@, fuel as nat),
        idx_in(final(out)@, ctx.index@.len() as int),
    decreases fuel, 2 + rs@.len(),
{
    let ghost o0 = out@;
    let mut i: usize = 0;
    assert(o0 + spec_expand_regions(ctx@, rs@.take(0), fuel as nat) =~= o0);
    while i < rs.len()
        invariant
            ctx.index.wf(),
            idx_in(out@, ctx.index@.len() as int),
            i <= rs.len(),
            out@ == o0 + spec_expand_regions(ctx@, rs@.take(i as int), fuel as nat),
        decreases rs.len() - i,
    {
        assert(rs@.take(i + 1).drop_last() =~= rs@.take(i as int));
        expand_region(ctx, &rs[i], fuel, out);
        assert(out@ =~= o0 + spec_expand_regions(ctx@, rs@.take(i + 1), fuel as nat));
        i += 1;
    }
    assert(rs@.take(i as int) =~= rs@);
}

fn expand(ctx: &MachineEmitCtx<'_>, idx: u8, fuel: u32, out: &mut Vec<u8>)
    requires
        ctx.index.wf(),
        (idx as int) < ctx.index@.len(),
        idx_in(old(out)@, ctx.index@.len() as int),
    ensures
        final(out)@ == old(out)@ + spec_expand(ctx@, idx as int, fuel as nat),
        idx_in(final(out)@, ctx.index@.len() as int),
    decreases fuel, 0int,
{
    let ghost o0 = out@;
    if fuel == 0 {
        assert(out@ =~= o0 + spec_expand(ctx@, idx as int, fuel as nat));
        return;
    }
    let rec = ctx.index.get(idx);
    match rec.kind {
        StateRecordKind::Composite => {
            match find_composite(ctx.machine, rec.ir_id.as_str()) {
                Some(c) => {
                    if c.regions.len() > 0 {
                        expand_region(ctx, &c.regions[0], fuel - 1, out);
                    }
                },
                None => {},
            }
        },
        StateRecordKind::Parallel => {
            match find_parallel(ctx.machine, rec.ir_id.as_str()) {
                Some(q) => expand_regions(ctx, &q.regions, fuel - 1, out),
                None => {},
            }
        },
        _ => {},
    }
    assert(out@ =~= o0 + spec_expand(ctx@, idx as int, fuel as nat));
}

/// The IR id of a restorable child: simple, composite, parallel, final or
/// reference states.
pub open spec fn spec_child_id(s: StateNode) -> Option<Seq<char>> {
    match s {
        StateNode::Simple(x) => Some(x.id@),
        StateNode::Composite(x) => Some(x.id@),
        StateNode::Parallel(x) => Some(x.id@),
        StateNode::Final(x) => Some(x.id@),
        StateNode::Submachine(x) => Some(x.id@),
        _ => None,
    }
}

/// The restorable children of a region with the chains a restore enters
/// for each: the child, then its initial-chain expansion.
pub open spec fn spec_children_chains(ctx: CtxView, ss: Seq<StateNode>) -> Seq<(u8, Seq<u8>)>
    decreases ss.len(),
{
    if ss.len() == 0 {
        Seq::empty()
    } else {
        let prev = spec_children_chains(ctx, ss.drop_last());
        match spec_child_id(ss.last()) {
            Some(id) => match spec_lookup(ctx.index@, id) {
                Some(c) => prev.push((c as u8, seq![c as u8] + spec_expand(ctx, c, ctx.index@.len()))),
                None => prev,
            },
            None => prev,
        }
    }
}

/// The restore chains of composite `rec`: those of its first region's
/// children (none when it is not a composite of the tree).
pub open spec fn spec_restore_chains(ctx: CtxView, cid: Seq<char>) -> Seq<(u8, Seq<u8>)> {
    match spec_find_composite(*ctx.machine, cid) {
        Some(c) => if c.regions@.len() > 0 {
            spec_children_chains(ctx, c.regions@[0].states@)
        } else {
            Seq::empty()
        },
        None => Seq::empty(),
    }
}

fn child_id(s: &StateNode) -> (r: Option<&String>)
    ensures
        match spec_child_id(*s) {
            Some(id) => r matches Some(x) && x@ == id,
            None => r is None,
        },
{
    match s {
        StateNode::Simple(x) => Some(&x.id),
        StateNode::Composite(x) => Some(&x.id),
        StateNode::Parallel(x) => Some(&x.id),
        StateNode::Final(x) => Some(&x.id),
        StateNode::Submachine(x) => Some(&x.id),
        _ => None,
    }
}

/// Every chain of the list indexes the table.
pub open spec fn chains_in(v: Seq<(u8, Vec<u8>)>, n: int) -> bool {
    forall|k: int| 0 <= k < v.len() ==> (#[trigger] v[k].0 as int) < n && idx_in(v[k].1@, n)
}

pub open spec fn chains_view(v: Seq<(u8, Vec<u8>)>) -> Seq<(u8, Seq<u8>)> {
    v.map_values(|x: (u8, Vec<u8>)| (x.0, x.1@))
}

fn restore_children_chains(ctx: &MachineEmitCtx<'_>, cid: &str) -> (r: Vec<(u8, Vec<u8>)>)
    requires
        ctx.index.wf(),
    ensures
        chains_view(r@) == spec_restore_chains(ctx@, cid@),
        chains_in(r@, ctx.index@.len() as int),
{
    let mut out: Vec<(u8, Vec<u8>)> = Vec::new();
    assert(chains_view(out@) =~= Seq::<(u8, Seq<u8>)>::empty());
    match find_composite(ctx.machine, cid) {
        None => {},
        Some(c) => {
            if c.regions.len() > 0 {
                let ss = &c.regions[0].states;
                let fuel: u32 = ctx.index.records.len() as u32;
                let mut i: usize = 0;
                assert(chains_view(out@) =~= spec_children_chains(ctx@, ss@.take(0)));
                while i < ss.len()
                    invariant
                        ctx.index.wf(),
                        fuel as int == ctx.index@.len(),
                        i <= ss.len(),
                        chains_view(out@) == spec_children_chains(ctx@, ss@.take(i as int)),
                        chains_in(out@, ctx.index@.len() as int),
                    decreases ss.len() - i,
                {
                    assert(ss@.take(i + 1).drop_last() =~= ss@.take(i as int));
                    assert(ss@.take(i + 1).last() == ss@[i as int]);
                    let ghost o0 = out@;
                    match child_id(&ss[i]) {
                        Some(id) => {
                            proof {
                                lemma_lookup_range(ctx.index@, id@);
                            }
                            match ctx.index.lookup(id.as_str()) {
                                Some(ci) => {
                                    let mut chain: Vec<u8> = Vec::new();
                                    chain.push(ci);
                                    assert(idx_in(chain@, ctx.index@.len() as int));
                                    expand(ctx, ci, fuel, &mut chain);
                                    out.push((ci, chain));
                                    assert(chains_view(out@) =~= chains_view(o0).push((ci, chain@)));
                                },
                                None => {},
                            }
                        },
                        None => {},
                    }
                    assert(chains_view(out@) =~= spec_children_chains(ctx@, ss@.take(i + 1)));
                    i += 1;
                }
                assert(ss@.take(i as int) =~= ss@);
            }
        },
    }
    out
}


// ---------------------------------------------------------------------
// The helper functions
// ---------------------------------------------------------------------

/// The entry of one state of a restore chain: entered when active at rest
/// and not final (a reference state starts its instance), its timers
/// armed, and recorded.
pub open spec fn spec_restore_entry(ctx: CtxView, cs: int) -> Seq<char> {
    let rec = ctx.index@[cs];
    let pad = "        "@;
    (if spec_active_at_rest(rec.kind) && rec.kind != StateRecordKind::Final {
        match spec_first_subref(spec_collect_sub_refs(ctx), rec.ir_id) {
            Some(sr) => spec_sub_init(sr, pad),
            None => pad + ctx.machine.name@ + "_entry_"@ + rec.c_name + "(m);\n"@,
        }
    } else {
        Seq::empty()
    }) + spec_arm_timers(spec_collect_timers(ctx), cs, pad, "P0-4: arm timer on history restore"@)
        + "        #ifdef FSM_TRACE\n        fsm_trace_csv_append(m->_trace_ent, sizeof(m->_trace_ent), "@
        + spec_c_string_literal(rec.ir_id) + ");\n        #endif\n"@
}

pub open spec fn spec_restore_entries(ctx: CtxView, chain: Seq<u8>) -> Seq<char>
    decreases chain.len(),
{
    if chain.len() == 0 {
        Seq::empty()
    } else {
        spec_restore_entries(ctx, chain.drop_last()) + spec_restore_entry(ctx, chain.last() as int)
    }
}

/// The last leaf (simple, final or reference state) of a chain.
pub open spec fn spec_last_leaf(ctx: CtxView, chain: Seq<u8>) -> Option<int>
    decreases chain.len(),
{
    if chain.len() == 0 {
        None
    } else {
        let k = ctx.index@[chain.last() as int].kind;
        if k == StateRecordKind::Simple || k == StateRecordKind::Final || k == StateRecordKind::Submachine {
            Some(chain.last() as int)
        } else {
            spec_last_leaf(ctx, chain.drop_last())
        }
    }
}

/// The restore arm of one child: when the remembered state is `child`,
/// its chain is entered and its leaf written into its slot.
pub open spec fn spec_restore_arm(ctx: CtxView, child: int, chain: Seq<u8>) -> Seq<char> {
    let m = spec_c_ident(ctx.machine.name@);
    "    if (restore == "@ + m + "_STATE_"@ + ctx.index@[child].c_name + ") {\n"@
        + spec_restore_entries(ctx, chain) + (match spec_last_leaf(ctx, chain) {
        Some(l) => "        m->_active["@ + spec_decimal(ctx.layout.spec_slot(l) as nat) + "] = "@ + m + "_STATE_"@
            + ctx.index@[l].c_name + ";\n"@,
        None => Seq::empty(),
    }) + "    }\n"@
}

pub open spec fn spec_restore_arms(ctx: CtxView, chains: Seq<(u8, Seq<u8>)>) -> Seq<char>
    decreases chains.len(),
{
    if chains.len() == 0 {
        Seq::empty()
    } else {
        spec_restore_arms(ctx, chains.drop_last()) + spec_restore_arm(ctx, chains.last().0 as int, chains.last().1)
    }
}

/// The record and restore functions of the composite at index `i` (nothing
/// when it declares no history).
pub open spec fn spec_history_fns(ctx: CtxView, i: int) -> Seq<char> {
    let rec = ctx.index@[i];
    let p = ctx.machine.name@;
    let m = spec_c_ident(p);
    match rec.history_pseudo {
        None => Seq::empty(),
        Some(hp) => {
            "static inline void "@ + p + "_history_record_"@ + rec.c_name + "("@ + p + "_t *m) {\n"@
                + "    /* Record current leaf for history "@ + ctx.index@[hp].dsl_name + " */\n"@
                + "    m->_history_"@ + rec.c_name + " = m->_active[0];\n}\n\n"@
                + "static inline void "@ + p + "_history_restore_"@ + rec.c_name + "("@ + p + "_t *m) {\n"@
                + "    "@ + p + "_StateId_t restore = m->_history_"@ + rec.c_name + ";\n"@
                + (match spec_history_default(ctx, rec.ir_id) {
                Some(d) => "    if (restore == "@ + m + "_STATE_ROOT) restore = "@ + m + "_STATE_"@ + ctx.index@[d].c_name + ";\n"@,
                None => "    /* default_target missing — analyzer (FSM-E0111) should have rejected */\n"@,
            }) + spec_restore_arms(ctx, spec_restore_chains(ctx, rec.ir_id)) + "}\n\n"@
        },
    }
}

pub open spec fn spec_history_fns_upto(ctx: CtxView, n: int) -> Seq<char>
    decreases n,
{
    if n <= 0 {
        Seq::empty()
    } else {
        spec_history_fns_upto(ctx, n - 1) + spec_history_fns(ctx, n - 1)
    }
}

/// The history helpers of every composite that declares history, in index
/// order.
pub open spec fn spec_history_helpers(ctx: CtxView) -> Seq<char> {
    spec_history_fns_upto(ctx, ctx.index@.len() as int)
}

fn restore_entries(ctx: &MachineEmitCtx<'_>, p: &str, ts: &Vec<TimerEntry>, chain: &Vec<u8>) -> (r: String)
    requires
        ctx.index.wf(),
        p@ == ctx.machine.name@,
        crate::emit::timer::timers_view(ts@) == spec_collect_timers(ctx@),
        idx_in(chain@, ctx.index@.len() as int),
    ensures
        r@ == spec_restore_entries(ctx@, chain@),
{
    let pad = "        ";
    let note = "P0-4: arm timer on history restore";
    let mut s = String::new();
    let mut i: usize = 0;
    assert(chain@.take(0) =~= Seq::<u8>::empty());
    while i < chain.len()
        invariant
            ctx.index.wf(),
            p@ == ctx.machine.name@,
            crate::emit::timer::timers_view(ts@) == spec_collect_timers(ctx@),
            idx_in(chain@, ctx.index@.len() as int),
            pad@ == "        "@,
            note@ == "P0-4: arm timer on history restore"@,
            i <= chain.len(),
            s@ == spec_restore_entries(ctx@, chain@.take(i as int)),
        decreases chain.len() - i,
    {
        assert(chain@.take(i + 1).drop_last() =~= chain@.take(i as int));
        assert(chain@.take(i + 1).last() == chain@[i as int]);
        let cs = chain[i];
        let rec = ctx.index.get(cs);
        let mut b = String::new();
        if rec.kind.is_active_at_rest() && rec.kind != StateRecordKind::Final {
            match ref_state_member(ctx, rec.ir_id.as_str()) {
                Some(sr) => emit_sub_init(&sr, pad, &mut b),
                None => {
                    b.append(pad);
                    b.append(p);
                    b.append("_entry_");
                    b.append(rec.c_name.as_str());
                    b.append("(m);\n");
                },
            }
        }
        let mut c = String::new();
        push_arm_timers(&mut c, ts, cs, pad, note);
        let lit = c_string_literal(rec.ir_id.as_str());
        c.append("        #ifdef FSM_TRACE\n        fsm_trace_csv_append(m->_trace_ent, sizeof(m->_trace_ent), ");
        c.append(lit.as_str());
        c.append(");\n        #endif\n");
        b.append(c.as_str());
        assert(b@ =~= spec_restore_entry(ctx@, cs as int));
        s.append(b.as_str());
        i += 1;
    }
    assert(chain@.take(i as int) =~= chain@);
    s
}

fn last_leaf(ctx: &MachineEmitCtx<'_>, chain: &Vec<u8>) -> (r: Option<u8>)
    requires
        idx_in(chain@, ctx.index@.len() as int),
    ensures
        crate::state_index::opt_u8_view(r) == spec_last_leaf(ctx@, chain@),
        r matches Some(x) ==> (x as int) < ctx.index@.len(),
{
    let mut i = chain.len();
    assert(chain@.take(i as int) =~= chain@);
    while i > 0
        invariant
            idx_in(chain@, ctx.index@.len() as int),
            i <= chain.len(),
            spec_last_leaf(ctx@, chain@) == spec_last_leaf(ctx@, chain@.take(i as int)),
        decreases i,
    {
        assert(chain@.take(i as int).drop_last() =~= chain@.take(i - 1));
        assert(chain@.take(i as int).last() == chain@[i - 1]);
        let k = ctx.index.get(chain[i - 1]).kind;
        if k == StateRecordKind::Simple || k == StateRecordKind::Final || k == StateRecordKind::Submachine {
            return Some(chain[i - 1]);
        }
        i -= 1;
    }
    None
}

fn history_fns(ctx: &MachineEmitCtx<'_>, p: &str, m: &str, ts: &Vec<TimerEntry>, i: u8) -> (r: String)
    requires
        ctx.index.wf(),
        p@ == ctx.machine.name@,
        m@ == spec_c_ident(ctx.machine.name@),
        crate::emit::timer::timers_view(ts@) == spec_collect_timers(ctx@),
        (i as int) < ctx.index@.len(),
    ensures
        r@ == spec_history_fns(ctx@, i as int),
{
    let rec = ctx.index.get(i);
    match rec.history_pseudo {
        None => String::new(),
        Some(hp) => {
            let hp_rec = ctx.index.get(hp);
            let mut b = "static inline void ".to_owned();
            b.append(p); b.append("_history_record_"); b.append(rec.c_name.as_str()); b.append("(");
            b.append(p); b.append("_t *m) {\n");
            b.append("    /* Record current leaf for history "); b.append(hp_rec.dsl_name.as_str()); b.append(" */\n");
            b.append("    m->_history_"); b.append(rec.c_name.as_str()); b.append(" = m->_active[0];\n}\n\n");
            b.append("static inline void "); b.append(p); b.append("_history_restore_"); b.append(rec.c_name.as_str());
            b.append("("); b.append(p); b.append("_t *m) {\n");
            b.append("    "); b.append(p); b.append("_StateId_t restore = m->_history_"); b.append(rec.c_name.as_str());
            b.append(";\n");
            let mut d = String::new();
            match history_default(ctx, rec.ir_id.as_str()) {
                Some(di) => {
                    d.append("    if (restore == "); d.append(m); d.append("_STATE_ROOT) restore = "); d.append(m);
                    d.append("_STATE_"); d.append(ctx.index.get(di).c_name.as_str()); d.append(";\n");
                },
                None => {
                    d.append("    /* default_target missing — analyzer (FSM-E0111) should have rejected */\n");
                },
            }
            b.append(d.as_str());
            let chains = restore_children_chains(ctx, rec.ir_id.as_str());
            let ghost cv = chains_view(chains@);
            let mut arms = String::new();
            let mut k: usize = 0;
            assert(cv.take(0) =~= Seq::<(u8, Seq<u8>)>::empty());
            while k < chains.len()
                invariant
                    ctx.index.wf(),
                    p@ == ctx.machine.name@,
                    m@ == spec_c_ident(ctx.machine.name@),
                    crate::emit::timer::timers_view(ts@) == spec_collect_timers(ctx@),
                    cv == chains_view(chains@),
                    chains_in(chains@, ctx.index@.len() as int),
                    k <= chains.len(),
                    arms@ == spec_restore_arms(ctx@, cv.take(k as int)),
                decreases chains.len() - k,
            {
                assert(cv.take(k + 1).drop_last() =~= cv.take(k as int));
                assert(cv.take(k + 1).last() == (chains@[k as int].0, chains@[k as int].1@));
                let child = chains[k].0;
                let chain = &chains[k].1;
                let mut a = "    if (restore == ".to_owned();
                a.append(m); a.append("_STATE_"); a.append(ctx.index.get(child).c_name.as_str()); a.append(") {\n");
                let ents = restore_entries(ctx, p, ts, chain);
                a.append(ents.as_str());
                let mut w = String::new();
                match last_leaf(ctx, chain) {
                    Some(l) => {
                        w.append("        m->_active[");
                        push_decimal(&mut w, ctx.layout.slot(l) as u64);
                        w.append("] = "); w.append(m); w.append("_STATE_"); w.append(ctx.index.get(l).c_name.as_str());
                        w.append(";\n");
                    },
                    None => {},
                }
                a.append(w.as_str());
                a.append("    }\n");
                assert(a@ =~= spec_restore_arm(ctx@, child as int, chain@));
                arms.append(a.as_str());
                k += 1;
            }
            assert(cv.take(k as int) =~= cv);
            b.append(arms.as_str());
            b.append("}\n\n");
            b
        },
    }
}

/// The history helpers of the machine: for each composite declaring
/// history, `<P>_history_record_<S>` (remember the live leaf) and
/// `<P>_history_restore_<S>` (re-enter the remembered child, or the
/// history's default when nothing was remembered, down to its leaf).
pub fn emit_history_helpers(ctx: &MachineEmitCtx<'_>) -> (r: String)
    requires
        ctx.index.wf(),
    ensures
        r@ == spec_history_helpers(ctx@),
{
    let p = ctx.type_prefix();
    let mstr = ctx.macro_prefix();
    let m = mstr.as_str();
    let ts = super::timer::collect_timers(ctx);
    let n = ctx.index.records.len();
    let mut s = String::new();
    let mut i: usize = 0;
    while i < n
        invariant
            ctx.index.wf(),
            p@ == ctx.machine.name@,
            m@ == spec_c_ident(ctx.machine.name@),
            crate::emit::timer::timers_view(ts@) == spec_collect_timers(ctx@),
            n == ctx.index@.len(),
            i <= n,
            s@ == spec_history_fns_upto(ctx@, i as int),
        decreases n - i,
    {
        let f = history_fns(ctx, p, m, &ts, i as u8);
        s.append(f.as_str());
        i += 1;
    }
    s
}

} // verus!
