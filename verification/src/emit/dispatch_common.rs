//! What both dispatch strategies share: the parent-pointer table, the
//! trigger of a transition as a C event enum, the payload prefix of its
//! event, and the priority order of a transition list.

use vstd::prelude::*;

use crate::ir::{RegionObject, StateNode, TransitionObject, Trigger};
use crate::state_index::spec_c_ident;
use crate::text::{push_decimal, spec_decimal, spec_starts_with, starts_with, str_eq};

use super::timer::{spec_collect_timers, spec_first_timer, timer_event_c};
use super::{spec_event_c_enum, CtxView, MachineEmitCtx};

verus! {

/// One row of the parent-pointer table (with the state's DSL name as a
/// comment when `commented`).
pub open spec fn spec_parent_row(ctx: CtxView, i: int, commented: bool) -> Seq<char> {
    let rec = ctx.index@[i];
    "    ["@ + spec_decimal(i as nat) + "] = "@ + spec_c_ident(ctx.machine.name@) + "_STATE_"@
        + ctx.index@[rec.parent].c_name + (if commented { ", /* "@ + rec.dsl_name + " */\n"@ } else { ",\n"@ })
}

pub open spec fn spec_parent_rows(ctx: CtxView, n: int, commented: bool) -> Seq<char>
    decreases n,
{
    if n <= 0 {
        Seq::empty()
    } else {
        spec_parent_rows(ctx, n - 1, commented) + spec_parent_row(ctx, n - 1, commented)
    }
}

/// The parent-pointer table: entry `i` is the state id of record `i`'s
/// parent, under the comment `head`.
pub open spec fn spec_parent_table(ctx: CtxView, head: Seq<char>, commented: bool) -> Seq<char> {
    let p = ctx.machine.name@;
    head + "static const "@ + p + "_StateId_t "@ + p + "_parent_table["@ + spec_c_ident(p) + "_STATE__COUNT] = {\n"@
        + spec_parent_rows(ctx, ctx.index@.len() as int, commented) + "};\n"@
}

pub fn parent_table(ctx: &MachineEmitCtx<'_>, head: &str, commented: bool) -> (r: String)
    requires
        ctx.index.wf(),
    ensures
        r@ == spec_parent_table(ctx@, head@, commented),
{
    let p = ctx.type_prefix();
    let mstr = ctx.macro_prefix();
    let m = mstr.as_str();
    let n = ctx.index.records.len();
    let mut rows = String::new();
    let mut i: usize = 0;
    while i < n
        invariant
            ctx.index.wf(),
            m@ == spec_c_ident(ctx.machine.name@),
            n == ctx.index@.len(),
            i <= n,
            rows@ == spec_parent_rows(ctx@, i as int, commented),
        decreases n - i,
    {
        let rec = ctx.index.get(i as u8);
        proof {
            if i > 0 {
                assert(0 <= ctx.index@[i as int].parent < i);
            }
        }
        let par = ctx.index.get(rec.parent);
        let mut b = "    [".to_owned();
        push_decimal(&mut b, i as u64);
        b.append("] = ");
        b.append(m);
        b.append("_STATE_");
        b.append(par.c_name.as_str());
        if commented {
            b.append(", /* ");
            b.append(rec.dsl_name.as_str());
            b.append(" */\n");
        } else {
            b.append(",\n");
        }
        rows.append(b.as_str());
        i += 1;
    }
    let mut s = head.to_owned();
    s.append("static const ");
    s.append(p);
    s.append("_StateId_t ");
    s.append(p);
    s.append("_parent_table[");
    s.append(m);
    s.append("_STATE__COUNT] = {\n");
    s.append(rows.as_str());
    s.append("};\n");
    s
}

/// The trigger of a transition as named in the IR: the event id, the
/// fired event of its timer, or the completion event.
pub open spec fn spec_trigger_id(ctx: CtxView, t: TransitionObject) -> Seq<char> {
    let m = spec_c_ident(ctx.machine.name@);
    match t.trigger {
        Some(Trigger::Event { event_id }) => event_id@,
        Some(Trigger::After { timer_id }) | Some(Trigger::Every { timer_id }) => match spec_first_timer(spec_collect_timers(ctx), timer_id@) {
            Some(tm) => m + "_EVENT_"@ + tm.event_suffix,
            None => m + "_EVENT__COMPLETION"@,
        },
        _ => m + "_EVENT__COMPLETION"@,
    }
}

pub fn trigger_id_of(t: &TransitionObject, ctx: &MachineEmitCtx<'_>) -> (r: String)
    requires
        ctx.index.wf(),
    ensures
        r@ == spec_trigger_id(ctx@, *t),
{
    let mut comp = ctx.macro_prefix();
    comp.append("_EVENT__COMPLETION");
    match &t.trigger {
        Some(Trigger::Event { event_id }) => event_id.clone(),
        Some(Trigger::After { timer_id }) | Some(Trigger::Every { timer_id }) => match timer_event_c(ctx, timer_id.as_str()) {
            Some(e) => e,
            None => comp,
        },
        _ => comp,
    }
}

/// The C enum of a transition's trigger: the trigger id itself when it is
/// already a C enum of the machine, else the enum of the event it names.
pub open spec fn spec_trigger_event_c(ctx: CtxView, t: TransitionObject) -> Seq<char> {
    let id = spec_trigger_id(ctx, t);
    if spec_starts_with(id, spec_c_ident(ctx.machine.name@)) {
        id
    } else {
        spec_event_c_enum(*ctx.machine, id)
    }
}

pub fn trigger_event_c(t: &TransitionObject, ctx: &MachineEmitCtx<'_>) -> (r: String)
    requires
        ctx.index.wf(),
    ensures
        r@ == spec_trigger_event_c(ctx@, *t),
{
    let id = trigger_id_of(t, ctx);
    let m = ctx.macro_prefix();
    if starts_with(id.as_str(), m.as_str()) {
        id
    } else {
        ctx.event_c_enum(id.as_str())
    }
}

/// The first event whose id or stable id is `id`.
pub open spec fn spec_event_by_id(evs: Seq<crate::ir::EventObject>, id: Seq<char>) -> Option<crate::ir::EventObject>
    decreases evs.len(),
{
    if evs.len() == 0 {
        None
    } else {
        match spec_event_by_id(evs.drop_last(), id) {
            Some(e) => Some(e),
            None => if evs.last().id@ == id || evs.last().stable_id@ == id { Some(evs.last()) } else { None },
        }
    }
}

proof fn lemma_event_by_id_prefix(evs: Seq<crate::ir::EventObject>, k: int, id: Seq<char>)
    requires
        0 <= k <= evs.len(),
        spec_event_by_id(evs.take(k), id) is Some,
    ensures
        spec_event_by_id(evs, id) == spec_event_by_id(evs.take(k), id),
    decreases evs.len(),
{
    if k < evs.len() {
        assert(evs.drop_last().take(k) =~= evs.take(k));
        lemma_event_by_id_prefix(evs.drop_last(), k, id);
    } else {
        assert(evs.take(k) =~= evs);
    }
}

/// The payload prefix of a trigger: `ev->__payload.<Event>` when the
/// event carries a payload, `ev->__payload` otherwise.
pub open spec fn spec_payload_prefix(ctx: CtxView, trigger_id: Seq<char>) -> Seq<char> {
    match spec_event_by_id(ctx.machine.events@, trigger_id) {
        Some(e) => if e.payload@.len() > 0 { "ev->__payload."@ + e.name@ } else { "ev->__payload"@ },
        None => "ev->__payload"@,
    }
}

pub fn trigger_event_payload_prefix(ctx: &MachineEmitCtx<'_>, trigger_id: &str) -> (r: String)
    ensures
        r@ == spec_payload_prefix(ctx@, trigger_id@),
{
    let evs = &ctx.machine.events;
    let mut i: usize = 0;
    while i < evs.len()
        invariant
            evs@ == ctx.machine.events@,
            i <= evs.len(),
            spec_event_by_id(evs@.take(i as int), trigger_id@) is None,
        decreases evs.len() - i,
    {
        assert(evs@.take(i + 1).drop_last() =~= evs@.take(i as int));
        assert(evs@.take(i + 1).last() == evs@[i as int]);
        if str_eq(evs[i].id.as_str(), trigger_id) || str_eq(evs[i].stable_id.as_str(), trigger_id) {
            proof {
                lemma_event_by_id_prefix(evs@, i + 1, trigger_id@);
            }
            if evs[i].payload.len() > 0 {
                let mut s = "ev->__payload.".to_owned();
                s.append(evs[i].name.as_str());
                return s;
            } else {
                return "ev->__payload".to_owned();
            }
        }
        i += 1;
    }
    assert(evs@.take(i as int) =~= evs@);
    "ev->__payload".to_owned()
}

/// `t` inserted after every element of priority at most its own.
pub open spec fn spec_insert_prio(x: TransitionObject, t: Seq<TransitionObject>) -> Seq<TransitionObject>
    decreases t.len(),
{
    if t.len() == 0 {
        seq![x]
    } else if t.last().priority <= x.priority {
        t.push(x)
    } else {
        spec_insert_prio(x, t.drop_last()).push(t.last())
    }
}

/// The stable sort of a transition list by ascending priority.
pub open spec fn spec_by_priority(ts: Seq<TransitionObject>) -> Seq<TransitionObject>
    decreases ts.len(),
{
    if ts.len() == 0 {
        Seq::empty()
    } else {
        spec_insert_prio(ts.last(), spec_by_priority(ts.drop_last()))
    }
}

pub open spec fn refs_view(v: Seq<&TransitionObject>) -> Seq<TransitionObject> {
    v.map_values(|t: &TransitionObject| *t)
}

fn insert_prio<'a>(v: &mut Vec<&'a TransitionObject>, x: &'a TransitionObject)
    ensures
        refs_view(final(v)@) == spec_insert_prio(*x, refs_view(old(v)@)),
{
    let ghost t0 = refs_view(v@);
    let mut j: usize = v.len();
    assert(t0.take(j as int) =~= t0);
    assert(spec_insert_prio(*x, t0) =~= spec_insert_prio(*x, t0.take(j as int)) + t0.skip(j as int));
    while j > 0 && v[j - 1].priority > x.priority
        invariant
            refs_view(v@) == t0,
            j <= v.len(),
            spec_insert_prio(*x, t0) == spec_insert_prio(*x, t0.take(j as int)) + t0.skip(j as int),
        decreases j,
    {
        assert(t0.take(j as int).drop_last() =~= t0.take(j - 1));
        assert(t0.take(j as int).last() == t0[j - 1]);
        assert(t0[j - 1] == *v@[j - 1]);
        assert(spec_insert_prio(*x, t0.take(j - 1)).push(t0[j - 1]) + t0.skip(j as int)
            =~= spec_insert_prio(*x, t0.take(j - 1)) + t0.skip(j - 1));
        j -= 1;
    }
    if j > 0 {
        assert(t0.take(j as int).last() == t0[j - 1]);
        assert(t0[j - 1] == *v@[j - 1]);
    }
    assert(spec_insert_prio(*x, t0.take(j as int)) =~= t0.take(j as int).push(*x));
    let ghost v0 = v@;
    v.insert(j, x);
    assert(refs_view(v@) =~= t0.take(j as int).push(*x) + t0.skip(j as int));
}

/// The transitions of `ts` in ascending priority, declaration order among
/// equal priorities.
pub fn by_priority(ts: &Vec<TransitionObject>) -> (r: Vec<&TransitionObject>)
    ensures
        refs_view(r@) == spec_by_priority(ts@),
{
    let mut v: Vec<&TransitionObject> = Vec::new();
    let mut i: usize = 0;
    assert(refs_view(v@) =~= spec_by_priority(ts@.take(0)));
    while i < ts.len()
        invariant
            i <= ts.len(),
            refs_view(v@) == spec_by_priority(ts@.take(i as int)),
        decreases ts.len() - i,
    {
        assert(ts@.take(i + 1).drop_last() =~= ts@.take(i as int));
        assert(ts@.take(i + 1).last() == ts@[i as int]);
        insert_prio(&mut v, &ts[i]);
        i += 1;
    }
    assert(ts@.take(i as int) =~= ts@);
    v
}

/// Whether a state tree declares any transition.
pub open spec fn spec_has_tr_node(s: StateNode) -> bool
    decreases s,
{
    match s {
        StateNode::Simple(x) => x.transitions@.len() > 0,
        StateNode::Composite(c) => c.transitions@.len() > 0 || spec_has_tr_regions(c.regions@),
        StateNode::Parallel(p) => p.transitions@.len() > 0 || spec_has_tr_regions(p.regions@),
        StateNode::Submachine(x) => x.transitions@.len() > 0,
        _ => false,
    }
}

pub open spec fn spec_has_tr_regions(rs: Seq<RegionObject>) -> bool
    decreases rs,
{
    rs.len() > 0 && (spec_has_tr_regions(rs.drop_last()) || spec_has_tr_states(rs.last().states@))
}

pub open spec fn spec_has_tr_states(ss: Seq<StateNode>) -> bool
    decreases ss,
{
    ss.len() > 0 && (spec_has_tr_states(ss.drop_last()) || spec_has_tr_node(ss.last()))
}

proof fn lemma_has_tr_regions_mono(rs: Seq<RegionObject>, k: int)
    requires
        0 <= k <= rs.len(),
        spec_has_tr_regions(rs.take(k)),
    ensures
        spec_has_tr_regions(rs),
    decreases rs.len(),
{
    if k < rs.len() {
        assert(rs.drop_last().take(k) =~= rs.take(k));
        lemma_has_tr_regions_mono(rs.drop_last(), k);
    } else {
        assert(rs.take(k) =~= rs);
    }
}

proof fn lemma_has_tr_states_mono(ss: Seq<StateNode>, k: int)
    requires
        0 <= k <= ss.len(),
        spec_has_tr_states(ss.take(k)),
    ensures
        spec_has_tr_states(ss),
    decreases ss.len(),
{
    if k < ss.len() {
        assert(ss.drop_last().take(k) =~= ss.take(k));
        lemma_has_tr_states_mono(ss.drop_last(), k);
    } else {
        assert(ss.take(k) =~= ss);
    }
}

fn has_tr_node(s: &StateNode) -> (r: bool)
    ensures
        r == spec_has_tr_node(*s),
    decreases s,
{
    match s {
        StateNode::Simple(x) => x.transitions.len() > 0,
        StateNode::Composite(c) => c.transitions.len() > 0 || has_tr_regions(&c.regions),
        StateNode::Parallel(p) => p.transitions.len() > 0 || has_tr_regions(&p.regions),
        StateNode::Submachine(x) => x.transitions.len() > 0,
        _ => false,
    }
}

fn has_tr_regions(rs: &Vec<RegionObject>) -> (r: bool)
    ensures
        r == spec_has_tr_regions(rs@),
    decreases rs,
{
    let mut i: usize = 0;
    while i < rs.len()
        invariant
            i <= rs.len(),
            !spec_has_tr_regions(rs@.take(i as int)),
        decreases rs.len() - i,
    {
        assert(rs@.take(i + 1).drop_last() =~= rs@.take(i as int));
        if has_tr_states(&rs[i].states) {
            proof {
                lemma_has_tr_regions_mono(rs@, i + 1);
            }
            return true;
        }
        i += 1;
    }
    assert(rs@.take(i as int) =~= rs@);
    false
}

fn has_tr_states(ss: &Vec<StateNode>) -> (r: bool)
    ensures
        r == spec_has_tr_states(ss@),
    decreases ss,
{
    let mut i: usize = 0;
    while i < ss.len()
        invariant
            i <= ss.len(),
            !spec_has_tr_states(ss@.take(i as int)),
        decreases ss.len() - i,
    {
        assert(ss@.take(i + 1).drop_last() =~= ss@.take(i as int));
        if has_tr_node(&ss[i]) {
            proof {
                lemma_has_tr_states_mono(ss@, i + 1);
            }
            return true;
        }
        i += 1;
    }
    assert(ss@.take(i as int) =~= ss@);
    false
}

/// Whether some state of the machine declares a transition.
pub fn machine_has_transitions(ctx: &MachineEmitCtx<'_>) -> (r: bool)
    ensures
        r == spec_has_tr_states(ctx.machine.root.states@),
{
    has_tr_states(&ctx.machine.root.states)
}

} // verus!
