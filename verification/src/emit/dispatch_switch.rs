//! The switch dispatch strategy: a per-state `switch` over the event id
//! inside `<P>_try_transitions_in_state`, and `<P>_dispatch`, which walks
//! every live region from its leaf towards the root until a state takes
//! the event.

use vstd::prelude::*;

use crate::ir::{RegionObject, StateNode, TransitionObject};
use crate::state_index::{lemma_lookup_range, spec_c_ident};
use crate::text::str_eq;

use super::defer::{emit_defer_runtime, emit_defer_table, machine_has_defer, spec_defer_runtime, spec_defer_table, spec_has_defer_states, spec_masks_fit};
use super::dispatch_common::{
    by_priority, machine_has_transitions, parent_table, refs_view, spec_by_priority, spec_has_tr_states, spec_parent_table,
    spec_payload_prefix, spec_trigger_event_c, spec_trigger_id, trigger_event_c, trigger_event_payload_prefix, trigger_id_of,
};
use super::submachine::{
    collect_sub_refs, emit_completion_sweep, emit_delegation_block, spec_collect_sub_refs, spec_delegation_block,
    spec_emit_completion_sweep, subrefs_view,
};
use super::timer::spec_index_of;
use super::transition::body::{emit_transition_body, spec_transition_body};
use super::{ctx_wf, CtxView, MachineEmitCtx};

verus! {

/// The candidates of a trigger: the transitions of `ts` whose trigger enum
/// is `k`, in order.
pub open spec fn spec_with_key(ctx: CtxView, ts: Seq<TransitionObject>, k: Seq<char>) -> Seq<TransitionObject>
    decreases ts.len(),
{
    if ts.len() == 0 {
        Seq::empty()
    } else if spec_trigger_event_c(ctx, ts.last()) == k {
        spec_with_key(ctx, ts.drop_last(), k).push(ts.last())
    } else {
        spec_with_key(ctx, ts.drop_last(), k)
    }
}

/// The distinct trigger enums of `ts` in order of first appearance.
pub open spec fn spec_trigger_order(ctx: CtxView, ts: Seq<TransitionObject>) -> Seq<Seq<char>>
    decreases ts.len(),
{
    if ts.len() == 0 {
        Seq::empty()
    } else {
        let prev = spec_trigger_order(ctx, ts.drop_last());
        let k = spec_trigger_event_c(ctx, ts.last());
        if prev.contains(k) { prev } else { prev.push(k) }
    }
}

/// One candidate transition inside its event case: its body in a
/// `do { ... } while (0)` whose guard failure breaks to the next one.
pub open spec fn spec_candidate(ctx: CtxView, t: TransitionObject) -> Seq<char> {
    "            do {\n"@ + spec_transition_body(t, ctx, spec_payload_prefix(ctx, spec_trigger_id(ctx, t)), 16, "break;"@)
        + "                return true;\n            } while (0);\n"@
}

pub open spec fn spec_candidates(ctx: CtxView, cs: Seq<TransitionObject>) -> Seq<char>
    decreases cs.len(),
{
    if cs.len() == 0 {
        Seq::empty()
    } else {
        spec_candidates(ctx, cs.drop_last()) + spec_candidate(ctx, cs.last())
    }
}

/// The event case of trigger enum `k`.
pub open spec fn spec_event_case(ctx: CtxView, k: Seq<char>, cs: Seq<TransitionObject>) -> Seq<char> {
    "        case "@ + k + ": {\n"@ + spec_candidates(ctx, cs) + "            break;\n        }\n"@
}

pub open spec fn spec_event_cases(ctx: CtxView, sorted: Seq<TransitionObject>, order: Seq<Seq<char>>) -> Seq<char>
    decreases order.len(),
{
    if order.len() == 0 {
        Seq::empty()
    } else {
        spec_event_cases(ctx, sorted, order.drop_last()) + spec_event_case(ctx, order.last(), spec_with_key(ctx, sorted, order.last()))
    }
}

/// The state case of the state `id` with transitions `ts` (nothing when
/// it has none): its transitions by priority, grouped by trigger.
pub open spec fn spec_state_case(ctx: CtxView, id: Seq<char>, ts: Seq<TransitionObject>) -> Seq<char> {
    if ts.len() == 0 {
        Seq::empty()
    } else {
        let rec = ctx.index@[spec_index_of(ctx.index@, id)];
        let sorted = spec_by_priority(ts);
        "    case "@ + spec_c_ident(ctx.machine.name@) + "_STATE_"@ + rec.c_name + ": /* "@ + rec.dsl_name + " */\n"@
            + "        switch (ev->id) {\n"@ + spec_event_cases(ctx, sorted, spec_trigger_order(ctx, sorted))
            + "        default: break;\n        }\n        break;\n"@
    }
}

/// The state cases of a state tree, in document order (a state before
/// its descendants).
pub open spec fn spec_switch_node(ctx: CtxView, s: StateNode) -> Seq<char>
    decreases s,
{
    match s {
        StateNode::Simple(x) => spec_state_case(ctx, x.id@, x.transitions@),
        StateNode::Composite(c) => spec_state_case(ctx, c.id@, c.transitions@) + spec_switch_regions(ctx, c.regions@),
        StateNode::Parallel(p) => spec_state_case(ctx, p.id@, p.transitions@) + spec_switch_regions(ctx, p.regions@),
        StateNode::Submachine(x) => spec_state_case(ctx, x.id@, x.transitions@),
        _ => Seq::empty(),
    }
}

pub open spec fn spec_switch_regions(ctx: CtxView, rs: Seq<RegionObject>) -> Seq<char>
    decreases rs,
{
    if rs.len() == 0 {
        Seq::empty()
    } else {
        spec_switch_regions(ctx, rs.drop_last()) + spec_switch_states(ctx, rs.last().states@)
    }
}

pub open spec fn spec_switch_states(ctx: CtxView, ss: Seq<StateNode>) -> Seq<char>
    decreases ss,
{
    if ss.len() == 0 {
        Seq::empty()
    } else {
        spec_switch_states(ctx, ss.drop_last()) + spec_switch_node(ctx, ss.last())
    }
}

fn strs_contain(v: &Vec<String>, x: &String) -> (r: bool)
    ensures
        r == v@.map_values(|s: String| s@).contains(x@),
{
    let ghost vv = v@.map_values(|s: String| s@);
    let mut i: usize = 0;
    while i < v.len()
        invariant
            vv == v@.map_values(|s: String| s@),
            i <= v.len(),
            forall|k: int| 0 <= k < i ==> vv[k] != x@,
        decreases v.len() - i,
    {
        if str_eq(v[i].as_str(), x.as_str()) {
            assert(vv[i as int] == x@);
            return true;
        }
        i += 1;
    }
    false
}

fn state_case(ctx: &MachineEmitCtx<'_>, m: &str, id: &String, ts: &Vec<TransitionObject>) -> (r: String)
    requires
        ctx_wf(ctx@),
        m@ == spec_c_ident(ctx.machine.name@),
    ensures
        r@ == spec_state_case(ctx@, id@, ts@),
{
    if ts.len() == 0 {
        return String::new();
    }
    proof {
        lemma_lookup_range(ctx.index@, id@);
    }
    let idx = ctx.index.must_lookup(id.as_str());
    let rec = ctx.index.get(idx);
    let sorted = by_priority(ts);
    let ghost sv = refs_view(sorted@);
    let mut keys: Vec<String> = Vec::new();
    let mut order: Vec<String> = Vec::new();
    let mut i: usize = 0;
    while i < sorted.len()
        invariant
            ctx_wf(ctx@),
            sv == refs_view(sorted@),
            i <= sorted.len(),
            keys@.len() == i,
            forall|k: int| 0 <= k < i ==> (#[trigger] keys@[k])@ == spec_trigger_event_c(ctx@, sv[k]),
            order@.map_values(|s: String| s@) == spec_trigger_order(ctx@, sv.take(i as int)),
        decreases sorted.len() - i,
    {
        assert(sv.take(i + 1).drop_last() =~= sv.take(i as int));
        assert(sv.take(i + 1).last() == sv[i as int]);
        let k = trigger_event_c(sorted[i], ctx);
        let ghost o0 = order@.map_values(|s: String| s@);
        if !strs_contain(&order, &k) {
            order.push(k.clone());
            assert(order@.map_values(|s: String| s@) =~= o0.push(k@));
        }
        keys.push(k);
        i += 1;
    }
    assert(sv.take(i as int) =~= sv);
    let ghost ov = order@.map_values(|s: String| s@);
    let mut cases = String::new();
    let mut j: usize = 0;
    assert(ov.take(0) =~= Seq::<Seq<char>>::empty());
    while j < order.len()
        invariant
            ctx_wf(ctx@),
            sv == refs_view(sorted@),
            keys@.len() == sorted@.len(),
            forall|k: int| 0 <= k < keys@.len() ==> (#[trigger] keys@[k])@ == spec_trigger_event_c(ctx@, sv[k]),
            ov == order@.map_values(|s: String| s@),
            j <= order.len(),
            cases@ == spec_event_cases(ctx@, sv, ov.take(j as int)),
        decreases order.len() - j,
    {
        assert(ov.take(j + 1).drop_last() =~= ov.take(j as int));
        assert(ov.take(j + 1).last() == order@[j as int]@);
        let k = &order[j];
        let mut c = "        case ".to_owned();
        c.append(k.as_str());
        c.append(": {\n");
        let mut bodies = String::new();
        let mut q: usize = 0;
        assert(sv.take(0) =~= Seq::<TransitionObject>::empty());
        while q < sorted.len()
            invariant
                ctx_wf(ctx@),
                sv == refs_view(sorted@),
                keys@.len() == sorted@.len(),
                forall|k: int| 0 <= k < keys@.len() ==> (#[trigger] keys@[k])@ == spec_trigger_event_c(ctx@, sv[k]),
                q <= sorted.len(),
                bodies@ == spec_candidates(ctx@, spec_with_key(ctx@, sv.take(q as int), k@)),
            decreases sorted.len() - q,
        {
            assert(sv.take(q + 1).drop_last() =~= sv.take(q as int));
            assert(sv.take(q + 1).last() == sv[q as int]);
            assert(keys@[q as int]@ == spec_trigger_event_c(ctx@, sv[q as int]));
            assert(*sorted@[q as int] == sv[q as int]);
            if str_eq(keys[q].as_str(), k.as_str()) {
                let t = sorted[q];
                let tid = trigger_id_of(t, ctx);
                let pp = trigger_event_payload_prefix(ctx, tid.as_str());
                let mut b = "            do {\n".to_owned();
                emit_transition_body(t, ctx, pp.as_str(), 16, "break;", &mut b);
                b.append("                return true;\n            } while (0);\n");
                assert(b@ =~= spec_candidate(ctx@, sv[q as int]));
                let ghost b0 = bodies@;
                bodies.append(b.as_str());
                assert(spec_with_key(ctx@, sv.take(q + 1), k@) == spec_with_key(ctx@, sv.take(q as int), k@).push(sv[q as int]));
                let ghost prevk = spec_with_key(ctx@, sv.take(q as int), k@);
                assert(prevk.push(sv[q as int]).drop_last() =~= prevk);
                assert(bodies@ =~= spec_candidates(ctx@, spec_with_key(ctx@, sv.take(q + 1), k@)));
            } else {
                assert(spec_with_key(ctx@, sv.take(q + 1), k@) == spec_with_key(ctx@, sv.take(q as int), k@));
            }
            q += 1;
        }
        assert(sv.take(q as int) =~= sv);
        c.append(bodies.as_str());
        c.append("            break;\n        }\n");
        cases.append(c.as_str());
        j += 1;
    }
    assert(ov.take(j as int) =~= ov);
    let mut s = "    case ".to_owned();
    s.append(m);
    s.append("_STATE_");
    s.append(rec.c_name.as_str());
    s.append(": /* ");
    s.append(rec.dsl_name.as_str());
    s.append(" */\n");
    s.append("        switch (ev->id) {\n");
    s.append(cases.as_str());
    s.append("        default: break;\n        }\n        break;\n");
    s
}

fn switch_node(ctx: &MachineEmitCtx<'_>, m: &str, s: &StateNode) -> (r: String)
    requires
        ctx_wf(ctx@),
        m@ == spec_c_ident(ctx.machine.name@),
    ensures
        r@ == spec_switch_node(ctx@, *s),
    decreases s,
{
    match s {
        StateNode::Simple(x) => state_case(ctx, m, &x.id, &x.transitions),
        StateNode::Composite(c) => {
            let mut b = state_case(ctx, m, &c.id, &c.transitions);
            let r = switch_regions(ctx, m, &c.regions);
            b.append(r.as_str());
            b
        },
        StateNode::Parallel(p) => {
            let mut b = state_case(ctx, m, &p.id, &p.transitions);
            let r = switch_regions(ctx, m, &p.regions);
            b.append(r.as_str());
            b
        },
        StateNode::Submachine(x) => state_case(ctx, m, &x.id, &x.transitions),
        _ => String::new(),
    }
}

fn switch_regions(ctx: &MachineEmitCtx<'_>, m: &str, rs: &Vec<RegionObject>) -> (r: String)
    requires
        ctx_wf(ctx@),
        m@ == spec_c_ident(ctx.machine.name@),
    ensures
        r@ == spec_switch_regions(ctx@, rs@),
    decreases rs,
{
    let mut s = String::new();
    let mut i: usize = 0;
    assert(rs@.take(0) =~= Seq::<RegionObject>::empty());
    while i < rs.len()
        invariant
            ctx_wf(ctx@),
            m@ == spec_c_ident(ctx.machine.name@),
            i <= rs.len(),
            s@ == spec_switch_regions(ctx@, rs@.take(i as int)),
        decreases rs.len() - i,
    {
        assert(rs@.take(i + 1).drop_last() =~= rs@.take(i as int));
        let t = switch_states(ctx, m, &rs[i].states);
        s.append(t.as_str());
        i += 1;
    }
    assert(rs@.take(i as int) =~= rs@);
    s
}

fn switch_states(ctx: &MachineEmitCtx<'_>, m: &str, ss: &Vec<StateNode>) -> (r: String)
    requires
        ctx_wf(ctx@),
        m@ == spec_c_ident(ctx.machine.name@),
    ensures
        r@ == spec_switch_states(ctx@, ss@),
    decreases ss,
{
    let mut s = String::new();
    let mut i: usize = 0;
    assert(ss@.take(0) =~= Seq::<StateNode>::empty());
    while i < ss.len()
        invariant
            ctx_wf(ctx@),
            m@ == spec_c_ident(ctx.machine.name@),
            i <= ss.len(),
            s@ == spec_switch_states(ctx@, ss@.take(i as int)),
        decreases ss.len() - i,
    {
        assert(ss@.take(i + 1).drop_last() =~= ss@.take(i as int));
        let t = switch_node(ctx, m, &ss[i]);
        s.append(t.as_str());
        i += 1;
    }
    assert(ss@.take(i as int) =~= ss@);
    s
}

/// `<P>_try_transitions_in_state`: the state cases of every state with
/// transitions; true when a transition fired.
pub open spec fn spec_per_state_helpers(ctx: CtxView) -> Seq<char> {
    let p = ctx.machine.name@;
    "/* Per-state transition try function. Returns true if a transition fired. */\n"@
        + "static bool "@ + p + "_try_transitions_in_state("@ + p + "_t *m, "@ + p + "_StateId_t s, const "@ + p
        + "_Event_t *ev) {\n"@
        + (if !spec_has_tr_states(ctx.machine.root.states@) { "    (void)m; (void)ev;\n"@ } else { Seq::empty() })
        + "    switch (s) {\n"@ + spec_switch_states(ctx, ctx.machine.root.states@)
        + "    default: break;\n    }\n    return false;\n}\n"@
}

fn per_state_helpers(ctx: &MachineEmitCtx<'_>) -> (r: String)
    requires
        ctx_wf(ctx@),
    ensures
        r@ == spec_per_state_helpers(ctx@),
{
    let p = ctx.type_prefix();
    let mstr = ctx.macro_prefix();
    let mut s = "/* Per-state transition try function. Returns true if a transition fired. */\n".to_owned();
    s.append("static bool ");
    s.append(p);
    s.append("_try_transitions_in_state(");
    s.append(p);
    s.append("_t *m, ");
    s.append(p);
    s.append("_StateId_t s, const ");
    s.append(p);
    s.append("_Event_t *ev) {\n");
    let mut v = String::new();
    if !machine_has_transitions(ctx) {
        v.append("    (void)m; (void)ev;\n");
    }
    s.append(v.as_str());
    s.append("    switch (s) {\n");
    let body = switch_states(ctx, mstr.as_str(), &ctx.machine.root.states);
    s.append(body.as_str());
    s.append("    default: break;\n    }\n    return false;\n}\n");
    s
}


/// The declaration of `__delegated_any` (only with references and deferral).
pub open spec fn spec_delegated_decl(subs: bool, defer: bool) -> Seq<char> {
    if subs && defer {
        "    /* Set by a delegated-and-consumed event so the\n     * defer hook does not also hold it (a delegated\n     * event counts as consumed). */\n    bool __delegated_any = false;\n"@
    } else {
        Seq::empty()
    }
}

/// The hold of an unconsumed event that the configuration defers.
pub open spec fn spec_defer_hold(p: Seq<char>, subs: bool, defer: bool) -> Seq<char> {
    if defer {
        "    if (!fired_any"@ + (if subs { " && !__delegated_any"@ } else { Seq::empty() }) + " && "@ + p
            + "_active_config_defers(m, ev->id)) {\n        "@ + p + "_defer_push(m, ev);\n        return;\n    }\n"@
    } else {
        Seq::empty()
    }
}

/// The release of held events after a transition fired.
pub open spec fn spec_release_call(p: Seq<char>, defer: bool) -> Seq<char> {
    if defer { "        "@ + p + "_release_deferred(m);\n"@ } else { Seq::empty() }
}

/// The drain of the released events.
pub open spec fn spec_drain(p: Seq<char>, defer: bool) -> Seq<char> {
    if defer {
        "        {\n            "@ + p + "_Event_t __rd;\n            while ("@ + p + "_dequeue(m, &__rd)) {\n                "@ + p
            + "_dispatch(m, &__rd);\n            }\n        }\n"@
    } else {
        Seq::empty()
    }
}

/// `<P>_dispatch` of the switch strategy: each live region, innermost
/// first, is walked from its leaf to the root until a state takes the
/// event; then references are delegated to, deferral holds an unconsumed
/// event, and after a fired transition completion runs and released
/// events are drained.
pub open spec fn spec_switch_outer(ctx: CtxView) -> Seq<char> {
    let p = ctx.machine.name@;
    let m = spec_c_ident(p);
    let srs = spec_collect_sub_refs(ctx);
    let subs = srs.len() > 0;
    let defer = spec_has_defer_states(ctx.machine.root.states@);
    let decl = spec_delegated_decl(subs, defer);
    let deleg = if subs {
        spec_delegation_block(ctx, srs, "    "@, defer) + spec_emit_completion_sweep(ctx, srs, "    "@)
    } else {
        Seq::empty()
    };
    let hold = spec_defer_hold(p, subs, defer);
    let release = spec_release_call(p, defer);
    let drain = spec_drain(p, defer);
    "void "@
    + p
    + "_dispatch("@
    + p
    + "_t *m, const "@
    + p
    + "_Event_t *ev) {\n"@
    + "    /* Per-region ancestor walk. For each active leaf in\n     * `_active[]`, walk leaf-to-root via parent_table; the first ancestor\n     * with a matching transition fires it. Regions iterate independently,\n     * so a single event can drive every region in a parallel state in the\n     * same RTC step.\n     *\n     * Deferred events: an unconsumed-but-deferred event is held, and held\n     * events are released to the queue front after a configuration-changing\n     * transition and drained. Both are emitted only for machines that defer. */\n"@
    + "    bool fired_any = false;\n    bool fired_in_region["@
    + m
    + "_MAX_PARALLEL_REGIONS] = { false };\n"@
    + decl
    + "    /* Snapshot active region count up front so transition side effects\n     * that change `_active_count` (e.g. cross-out-of-parallel) do not\n     * shrink the iteration mid-walk. Process innermost leaves first\n     * (slots 1..N are nested below slot 0), so iterate from high to low. */\n    uint8_t initial_active = m->_active_count;\n    for (int8_t r = (int8_t)initial_active - 1; r >= 0; r--) {\n        /* Slot may have been cleared by a sibling-region transition\n         * (cross-out-of-parallel). */\n        if ((uint8_t)r >= m->_active_count) continue;\n        /* Skip slots whose region already fired in this RTC step. */\n        if (fired_in_region[r]) continue;\n        "@
    + p
    + "_StateId_t s = m->_active[r];\n        while (1) {\n            if ("@
    + p
    + "_try_transitions_in_state(m, s, ev)) {\n                fired_any = true;\n                fired_in_region[r] = true;\n                break;\n            }\n            if (s == "@
    + m
    + "_STATE_ROOT) break;\n            s = "@
    + p
    + "_parent_table[s];\n        }\n    }\n"@
    + deleg
    + hold
    + "    if (fired_any) {\n"@
    + release
    + "        "@
    + p
    + "_handle_completion(m);\n"@
    + drain
    + "    }\n    /* Otherwise: no ancestor handled the event — discard. */\n}\n"@
}

fn outer_dispatch(ctx: &MachineEmitCtx<'_>) -> (r: String)
    requires
        ctx.index.wf(),
    ensures
        r@ == spec_switch_outer(ctx@),
{
    let p = ctx.type_prefix();
    let mstr = ctx.macro_prefix();
    let m = mstr.as_str();
    let has_defer = machine_has_defer(ctx);
    let sub_refs = collect_sub_refs(ctx);
    let subs = sub_refs.len() > 0;
    let decl = if subs && has_defer {
        "    /* Set by a delegated-and-consumed event so the\n     * defer hook does not also hold it (a delegated\n     * event counts as consumed). */\n    bool __delegated_any = false;\n".to_owned()
    } else {
        String::new()
    };
    let mut deleg = String::new();
    if subs {
        emit_delegation_block(ctx, sub_refs.as_slice(), "    ", has_defer, &mut deleg);
        emit_completion_sweep(ctx, sub_refs.as_slice(), "    ", &mut deleg);
    }
    let mut hold = String::new();
    if has_defer {
        hold.append("    if (!fired_any");
        if subs {
            hold.append(" && !__delegated_any");
        }
        hold.append(" && ");
        hold.append(p);
        hold.append("_active_config_defers(m, ev->id)) {\n        ");
        hold.append(p);
        hold.append("_defer_push(m, ev);\n        return;\n    }\n");
    }
    let mut release = String::new();
    let mut drain = String::new();
    if has_defer {
        release.append("        ");
        release.append(p);
        release.append("_release_deferred(m);\n");
        drain.append("        {\n            ");
        drain.append(p);
        drain.append("_Event_t __rd;\n            while (");
        drain.append(p);
        drain.append("_dequeue(m, &__rd)) {\n                ");
        drain.append(p);
        drain.append("_dispatch(m, &__rd);\n            }\n        }\n");
    }
    let mut s = "void ".to_owned();
    s.append(p);
    s.append("_dispatch(");
    s.append(p);
    s.append("_t *m, const ");
    s.append(p);
    s.append("_Event_t *ev) {\n");
    s.append("    /* Per-region ancestor walk. For each active leaf in\n     * `_active[]`, walk leaf-to-root via parent_table; the first ancestor\n     * with a matching transition fires it. Regions iterate independently,\n     * so a single event can drive every region in a parallel state in the\n     * same RTC step.\n     *\n     * Deferred events: an unconsumed-but-deferred event is held, and held\n     * events are released to the queue front after a configuration-changing\n     * transition and drained. Both are emitted only for machines that defer. */\n");
    s.append("    bool fired_any = false;\n    bool fired_in_region[");
    s.append(m);
    s.append("_MAX_PARALLEL_REGIONS] = { false };\n");
    s.append(decl.as_str());
    s.append("    /* Snapshot active region count up front so transition side effects\n     * that change `_active_count` (e.g. cross-out-of-parallel) do not\n     * shrink the iteration mid-walk. Process innermost leaves first\n     * (slots 1..N are nested below slot 0), so iterate from high to low. */\n    uint8_t initial_active = m->_active_count;\n    for (int8_t r = (int8_t)initial_active - 1; r >= 0; r--) {\n        /* Slot may have been cleared by a sibling-region transition\n         * (cross-out-of-parallel). */\n        if ((uint8_t)r >= m->_active_count) continue;\n        /* Skip slots whose region already fired in this RTC step. */\n        if (fired_in_region[r]) continue;\n        ");
    s.append(p);
    s.append("_StateId_t s = m->_active[r];\n        while (1) {\n            if (");
    s.append(p);
    s.append("_try_transitions_in_state(m, s, ev)) {\n                fired_any = true;\n                fired_in_region[r] = true;\n                break;\n            }\n            if (s == ");
    s.append(m);
    s.append("_STATE_ROOT) break;\n            s = ");
    s.append(p);
    s.append("_parent_table[s];\n        }\n    }\n");
    s.append(deleg.as_str());
    s.append(hold.as_str());
    s.append("    if (fired_any) {\n");
    s.append(release.as_str());
    s.append("        ");
    s.append(p);
    s.append("_handle_completion(m);\n");
    s.append(drain.as_str());
    s.append("    }\n    /* Otherwise: no ancestor handled the event — discard. */\n}\n");
    s
}

/// The switch strategy's dispatch code: the parent table, the deferral
/// table and helpers (only for machines that defer), the per-state try
/// function and `<P>_dispatch`.
pub open spec fn spec_emit_dispatch(ctx: CtxView) -> Seq<char> {
    spec_parent_table(ctx, "/* B-10 hierarchical dispatch: parent-pointer table indexed by StateId. */\n"@, true) + "\n"@
        + (if spec_has_defer_states(ctx.machine.root.states@) {
            spec_defer_table(ctx) + "\n"@ + spec_defer_runtime(ctx.machine.name@, spec_c_ident(ctx.machine.name@)) + "\n"@
        } else {
            Seq::empty()
        }) + spec_per_state_helpers(ctx) + "\n"@ + spec_switch_outer(ctx)
}

/// The dispatch code of the switch strategy.
pub fn emit_dispatch(ctx: &MachineEmitCtx<'_>) -> (r: String)
    requires
        ctx_wf(ctx@),
        spec_masks_fit(ctx@),
    ensures
        r@ == spec_emit_dispatch(ctx@),
{
    let mut s = parent_table(ctx, "/* B-10 hierarchical dispatch: parent-pointer table indexed by StateId. */\n", true);
    s.append("\n");
    let mut d = String::new();
    if machine_has_defer(ctx) {
        let t = emit_defer_table(ctx);
        d.append(t.as_str());
        d.append("\n");
        let r = emit_defer_runtime(ctx);
        d.append(r.as_str());
        d.append("\n");
    }
    s.append(d.as_str());
    let h = per_state_helpers(ctx);
    s.append(h.as_str());
    s.append("\n");
    let o = outer_dispatch(ctx);
    s.append(o.as_str());
    s
}

} // verus!
