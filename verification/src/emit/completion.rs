//! Completion events: `<P>_handle_completion` dispatches the synthetic
//! completion event for every live final state (and every live state with
//! a `done` transition), and `<P>_all_regions_final` tells whether every
//! region of a parallel state rests in a final state.

use vstd::prelude::*;

use crate::ir::{RegionObject, StateNode, TransitionKind, TransitionObject};
use crate::state_index::{lemma_lookup_range, spec_active_at_rest, spec_c_ident, spec_lookup, StateRecordKind};
use crate::text::{push_decimal, spec_decimal, str_eq};

use super::timer::spec_index_of;
use super::transition::find::{find_parallel, spec_find_parallel};
use super::{CtxView, MachineEmitCtx};

verus! {

/// Whether a transition list holds a completion (`done`) transition.
pub open spec fn spec_has_done(ts: Seq<TransitionObject>) -> bool {
    exists|i: int| 0 <= i < ts.len() && ts[i].kind == TransitionKind::Completion
}

fn has_done(ts: &Vec<TransitionObject>) -> (r: bool)
    ensures
        r == spec_has_done(ts@),
{
    let mut i: usize = 0;
    while i < ts.len()
        invariant
            i <= ts.len(),
            forall|k: int| 0 <= k < i ==> ts@[k].kind != TransitionKind::Completion,
        decreases ts.len() - i,
    {
        if ts[i].kind == TransitionKind::Completion {
            return true;
        }
        i += 1;
    }
    false
}

/// The IR ids of the simple states with a `done` transition, depth first.
pub open spec fn spec_done_ids_node(s: StateNode) -> Seq<Seq<char>>
    decreases s,
{
    match s {
        StateNode::Simple(x) => if spec_has_done(x.transitions@) { seq![x.id@] } else { Seq::empty() },
        StateNode::Composite(c) => spec_done_ids_regions(c.regions@),
        StateNode::Parallel(p) => spec_done_ids_regions(p.regions@),
        _ => Seq::empty(),
    }
}

pub open spec fn spec_done_ids_regions(rs: Seq<RegionObject>) -> Seq<Seq<char>>
    decreases rs,
{
    if rs.len() == 0 {
        Seq::empty()
    } else {
        spec_done_ids_regions(rs.drop_last()) + spec_done_ids_states(rs.last().states@)
    }
}

pub open spec fn spec_done_ids_states(ss: Seq<StateNode>) -> Seq<Seq<char>>
    decreases ss,
{
    if ss.len() == 0 {
        Seq::empty()
    } else {
        spec_done_ids_states(ss.drop_last()) + spec_done_ids_node(ss.last())
    }
}

pub open spec fn strs_view(v: Seq<String>) -> Seq<Seq<char>> {
    v.map_values(|s: String| s@)
}

fn done_ids_node(s: &StateNode, out: &mut Vec<String>)
    ensures
        strs_view(final(out)@) == strs_view(old(out)@) + spec_done_ids_node(*s),
    decreases s,
{
    let ghost o0 = strs_view(out@);
    match s {
        StateNode::Simple(x) => {
            if has_done(&x.transitions) {
                out.push(x.id.clone());
            }
        },
        StateNode::Composite(c) => done_ids_regions(&c.regions, out),
        StateNode::Parallel(p) => done_ids_regions(&p.regions, out),
        _ => {},
    }
    assert(strs_view(out@) =~= o0 + spec_done_ids_node(*s));
}

fn done_ids_regions(rs: &Vec<RegionObject>, out: &mut Vec<String>)
    ensures
        strs_view(final(out)@) == strs_view(old(out)@) + spec_done_ids_regions(rs@),
    decreases rs,
{
    let ghost o0 = strs_view(out@);
    let mut i: usize = 0;
    assert(o0 + spec_done_ids_regions(rs@.take(0)) =~= o0);
    while i < rs.len()
        invariant
            i <= rs.len(),
            strs_view(out@) == o0 + spec_done_ids_regions(rs@.take(i as int)),
        decreases rs.len() - i,
    {
        assert(rs@.take(i + 1).drop_last() =~= rs@.take(i as int));
        done_ids_states(&rs[i].states, out);
        assert(strs_view(out@) =~= o0 + spec_done_ids_regions(rs@.take(i + 1)));
        i += 1;
    }
    assert(rs@.take(i as int) =~= rs@);
}

fn done_ids_states(ss: &Vec<StateNode>, out: &mut Vec<String>)
    ensures
        strs_view(final(out)@) == strs_view(old(out)@) + spec_done_ids_states(ss@),
    decreases ss,
{
    let ghost o0 = strs_view(out@);
    let mut i: usize = 0;
    assert(o0 + spec_done_ids_states(ss@.take(0)) =~= o0);
    while i < ss.len()
        invariant
            i <= ss.len(),
            strs_view(out@) == o0 + spec_done_ids_states(ss@.take(i as int)),
        decreases ss.len() - i,
    {
        assert(ss@.take(i + 1).drop_last() =~= ss@.take(i as int));
        done_ids_node(&ss[i], out);
        assert(strs_view(out@) =~= o0 + spec_done_ids_states(ss@.take(i + 1)));
        i += 1;
    }
    assert(ss@.take(i as int) =~= ss@);
}

fn strs_contain(v: &Vec<String>, x: &str) -> (r: bool)
    ensures
        r == strs_view(v@).contains(x@),
{
    let mut i: usize = 0;
    while i < v.len()
        invariant
            i <= v.len(),
            forall|k: int| 0 <= k < i ==> v@[k]@ != x@,
        decreases v.len() - i,
    {
        if str_eq(v[i].as_str(), x) {
            assert(strs_view(v@)[i as int] == x@);
            return true;
        }
        i += 1;
    }
    assert forall|k: int| 0 <= k < strs_view(v@).len() implies strs_view(v@)[k] != x@ by {
        assert(strs_view(v@)[k] == v@[k]@);
    }
    false
}

/// The completion case of record `i`: a final state completes its parent
/// (at once for a composite, once all regions are final for a parallel);
/// a state with a `done` transition fires it. Nothing for other records.
pub open spec fn spec_completion_case(ctx: CtxView, i: int, done: Seq<Seq<char>>) -> Seq<char> {
    let rec = ctx.index@[i];
    let p = ctx.machine.name@;
    let m = spec_c_ident(p);
    let is_final = rec.kind == StateRecordKind::Final;
    let has_done = done.contains(rec.ir_id) && spec_active_at_rest(rec.kind);
    let disp = "            "@ + p + "_dispatch(m, &comp);\n"@;
    if !is_final && !has_done {
        Seq::empty()
    } else {
        let par = ctx.index@[rec.parent];
        "        case "@ + m + "_STATE_"@ + rec.c_name + ":\n"@ + (if !is_final {
            "            /* `done` transition on `"@ + rec.dsl_name + "` — auto-fires after entry */\n"@ + disp
        } else if par.kind == StateRecordKind::Composite {
            "            /* Composite parent "@ + par.dsl_name + " fires immediately */\n"@ + disp
        } else if par.kind == StateRecordKind::Parallel {
            "            if ("@ + p + "_all_regions_final(m, "@ + m + "_STATE_"@ + par.c_name + ")) {\n"@
                + "                "@ + p + "_dispatch(m, &comp);\n"@ + "            }\n"@
        } else {
            disp
        }) + "            break;\n"@
    }
}

/// Whether record `i` gets a completion case.
pub open spec fn spec_has_case(ctx: CtxView, i: int, done: Seq<Seq<char>>) -> bool {
    let rec = ctx.index@[i];
    rec.kind == StateRecordKind::Final || (done.contains(rec.ir_id) && spec_active_at_rest(rec.kind))
}

pub open spec fn spec_completion_cases(ctx: CtxView, n: int, done: Seq<Seq<char>>) -> Seq<char>
    decreases n,
{
    if n <= 0 {
        Seq::empty()
    } else {
        spec_completion_cases(ctx, n - 1, done) + spec_completion_case(ctx, n - 1, done)
    }
}

pub open spec fn spec_any_case(ctx: CtxView, n: int, done: Seq<Seq<char>>) -> bool {
    exists|i: int| 0 <= i < n && spec_has_case(ctx, i, done)
}

/// `<P>_handle_completion`: dispatches the completion event once for
/// every live slot whose state is final (subject to its parent's
/// completion rule) or has a `done` transition, guarding the nesting depth.
pub open spec fn spec_handle_completion(ctx: CtxView) -> Seq<char> {
    let p = ctx.machine.name@;
    let m = spec_c_ident(p);
    let done = spec_done_ids_states(ctx.machine.root.states@);
    let n = ctx.index@.len() as int;
    "static void "@ + p + "_handle_completion("@ + p + "_t *m) {\n"@
        + "    /* Completion fires only when ALL regions of a parallel parent\n     * have reached Final. Composite parents fire as soon as their single\n     * region's active leaf is Final. */\n"@
        + "    (void)"@ + p + "_all_regions_final;\n"@
        + "    m->_completion_depth++;\n    FSM_ASSERT(m->_completion_depth <= 64);\n"@
        + "    "@ + p + "_Event_t comp;\n    comp.id = "@ + m + "_EVENT__COMPLETION;\n"@
        + "    for (uint8_t r = 0; r < m->_active_count; r++) {\n        switch (m->_active[r]) {\n"@
        + spec_completion_cases(ctx, n, done)
        + (if spec_any_case(ctx, n, done) { "        default: break;\n"@ } else { "        default: (void)comp; break;\n"@ })
        + "        }\n    }\n    m->_completion_depth--;\n}\n"@
}

/// The completion handler of the machine.
pub fn emit_handle_completion(ctx: &MachineEmitCtx<'_>) -> (r: String)
    requires
        ctx.index.wf(),
    ensures
        r@ == spec_handle_completion(ctx@),
{
    let p = ctx.type_prefix();
    let mstr = ctx.macro_prefix();
    let m = mstr.as_str();
    let mut done: Vec<String> = Vec::new();
    assert(strs_view(done@) =~= Seq::<Seq<char>>::empty());
    done_ids_states(&ctx.machine.root.states, &mut done);
    assert(strs_view(done@) =~= spec_done_ids_states(ctx.machine.root.states@));
    let ghost dv = strs_view(done@);
    let n = ctx.index.records.len();
    let mut cases = String::new();
    let mut any_case = false;
    let mut i: usize = 0;
    while i < n
        invariant
            ctx.index.wf(),
            p@ == ctx.machine.name@,
            m@ == spec_c_ident(ctx.machine.name@),
            dv == strs_view(done@),
            n == ctx.index@.len(),
            i <= n,
            cases@ == spec_completion_cases(ctx@, i as int, dv),
            any_case == spec_any_case(ctx@, i as int, dv),
        decreases n - i,
    {
        let rec = ctx.index.get(i as u8);
        let is_final = rec.kind == StateRecordKind::Final;
        let has = strs_contain(&done, rec.ir_id.as_str()) && rec.kind.is_active_at_rest();
        if is_final || has {
            let par = ctx.index.get(rec.parent);
            let mut b = "        case ".to_owned();
            b.append(m); b.append("_STATE_"); b.append(rec.c_name.as_str()); b.append(":\n");
            let mut d = "            ".to_owned();
            d.append(p); d.append("_dispatch(m, &comp);\n");
            let mut c = String::new();
            if !is_final {
                c.append("            /* `done` transition on `"); c.append(rec.dsl_name.as_str());
                c.append("` — auto-fires after entry */\n");
                c.append(d.as_str());
            } else if par.kind == StateRecordKind::Composite {
                c.append("            /* Composite parent "); c.append(par.dsl_name.as_str());
                c.append(" fires immediately */\n");
                c.append(d.as_str());
            } else if par.kind == StateRecordKind::Parallel {
                c.append("            if ("); c.append(p); c.append("_all_regions_final(m, "); c.append(m);
                c.append("_STATE_"); c.append(par.c_name.as_str()); c.append(")) {\n");
                c.append("                "); c.append(p); c.append("_dispatch(m, &comp);\n");
                c.append("            }\n");
            } else {
                c.append(d.as_str());
            }
            b.append(c.as_str());
            b.append("            break;\n");
            assert(b@ =~= spec_completion_case(ctx@, i as int, dv));
            cases.append(b.as_str());
            any_case = true;
            assert(spec_has_case(ctx@, i as int, dv));
        } else {
            assert(spec_completion_case(ctx@, i as int, dv) =~= Seq::<char>::empty());
        }
        proof {
            assert(spec_any_case(ctx@, i + 1, dv) == (spec_any_case(ctx@, i as int, dv) || spec_has_case(ctx@, i as int, dv)));
        }
        i += 1;
    }
    let mut s = "static void ".to_owned();
    s.append(p); s.append("_handle_completion("); s.append(p); s.append("_t *m) {\n");
    s.append("    /* Completion fires only when ALL regions of a parallel parent\n     * have reached Final. Composite parents fire as soon as their single\n     * region's active leaf is Final. */\n");
    s.append("    (void)"); s.append(p); s.append("_all_regions_final;\n");
    s.append("    m->_completion_depth++;\n    FSM_ASSERT(m->_completion_depth <= 64);\n");
    s.append("    "); s.append(p); s.append("_Event_t comp;\n    comp.id = "); s.append(m); s.append("_EVENT__COMPLETION;\n");
    s.append("    for (uint8_t r = 0; r < m->_active_count; r++) {\n        switch (m->_active[r]) {\n");
    s.append(cases.as_str());
    if any_case {
        s.append("        default: break;\n");
    } else {
        s.append("        default: (void)comp; break;\n");
    }
    s.append("        }\n    }\n    m->_completion_depth--;\n}\n");
    s
}


/// The IR ids of the final states directly in a region, in order.
pub open spec fn spec_final_ids(ss: Seq<StateNode>) -> Seq<Seq<char>>
    decreases ss.len(),
{
    if ss.len() == 0 {
        Seq::empty()
    } else {
        spec_final_ids(ss.drop_last()) + match ss.last() {
            StateNode::Final(f) => seq![f.id@],
            _ => Seq::empty(),
        }
    }
}

/// The IR id of a region state that can occupy the region's slot.
pub open spec fn spec_slot_candidate(s: StateNode) -> Option<Seq<char>> {
    match s {
        StateNode::Simple(x) => Some(x.id@),
        StateNode::Final(x) => Some(x.id@),
        StateNode::Composite(x) => Some(x.id@),
        StateNode::Parallel(x) => Some(x.id@),
        _ => None,
    }
}

/// The index of the first region state that resolves.
pub open spec fn spec_first_resolving(ctx: CtxView, ss: Seq<StateNode>) -> Option<int>
    decreases ss.len(),
{
    if ss.len() == 0 {
        None
    } else {
        match spec_first_resolving(ctx, ss.drop_last()) {
            Some(i) => Some(i),
            None => match spec_slot_candidate(ss.last()) {
                Some(id) => spec_lookup(ctx.index@, id),
                None => None,
            },
        }
    }
}

/// The slot of a region: that of its first resolving state, 0 otherwise.
pub open spec fn spec_region_slot(ctx: CtxView, ss: Seq<StateNode>) -> u8 {
    match spec_first_resolving(ctx, ss) {
        Some(i) => ctx.layout.spec_slot(i),
        None => 0,
    }
}

/// The condition that the region's slot holds final state `fid`.
pub open spec fn spec_final_cond(ctx: CtxView, slot: u8, fid: Seq<char>) -> Seq<char> {
    "m->_active["@ + spec_decimal(slot as nat) + "] == "@ + spec_c_ident(ctx.machine.name@) + "_STATE_"@
        + ctx.index@[spec_index_of(ctx.index@, fid)].c_name
}

/// The conditions of the region's final states joined by ` || `.
pub open spec fn spec_final_conds(ctx: CtxView, slot: u8, fids: Seq<Seq<char>>) -> Seq<char>
    decreases fids.len(),
{
    if fids.len() == 0 {
        Seq::empty()
    } else if fids.len() == 1 {
        spec_final_cond(ctx, slot, fids[0])
    } else {
        spec_final_conds(ctx, slot, fids.drop_last()) + " || "@ + spec_final_cond(ctx, slot, fids.last())
    }
}

/// The check of one region: it must rest in one of its final states (a
/// region without a final state never completes).
pub open spec fn spec_region_check(ctx: CtxView, r: RegionObject) -> Seq<char> {
    let fids = spec_final_ids(r.states@);
    if fids.len() == 0 {
        "        return false; /* region has no Final state */\n"@
    } else {
        "        if (!("@ + spec_final_conds(ctx, spec_region_slot(ctx, r.states@), fids) + ")) return false;\n"@
    }
}

pub open spec fn spec_region_checks(ctx: CtxView, rs: Seq<RegionObject>) -> Seq<char>
    decreases rs.len(),
{
    if rs.len() == 0 {
        Seq::empty()
    } else {
        spec_region_checks(ctx, rs.drop_last()) + spec_region_check(ctx, rs.last())
    }
}

/// The `case` of record `i` when it is a parallel state of the tree.
pub open spec fn spec_parallel_case(ctx: CtxView, i: int) -> Seq<char> {
    let rec = ctx.index@[i];
    if rec.kind != StateRecordKind::Parallel {
        Seq::empty()
    } else {
        match spec_find_parallel(*ctx.machine, rec.ir_id) {
            Some(q) => "    case "@ + spec_c_ident(ctx.machine.name@) + "_STATE_"@ + rec.c_name + ": /* parallel `"@
                + rec.dsl_name + "` */\n"@ + spec_region_checks(ctx, q.regions@) + "        return true;\n"@,
            None => Seq::empty(),
        }
    }
}

pub open spec fn spec_parallel_cases(ctx: CtxView, n: int) -> Seq<char>
    decreases n,
{
    if n <= 0 {
        Seq::empty()
    } else {
        spec_parallel_cases(ctx, n - 1) + spec_parallel_case(ctx, n - 1)
    }
}

/// `<P>_all_regions_final`: for each parallel state, true when every one of
/// its regions rests in a final state; false for anything else (always
/// false in a machine without parallel states).
pub open spec fn spec_all_regions_final_helper(ctx: CtxView) -> Seq<char> {
    let p = ctx.machine.name@;
    let head = "static bool "@ + p + "_all_regions_final(const "@ + p + "_t *m, "@ + p
        + "_StateId_t parallel_state) {\n"@ + "    (void)m; (void)parallel_state;\n"@;
    if !(exists|i: int| 0 <= i < ctx.index@.len() && ctx.index@[i].kind == StateRecordKind::Parallel) {
        head + "    return false; /* no parallel states in this machine */\n}\n"@
    } else {
        head + "    switch (parallel_state) {\n"@ + spec_parallel_cases(ctx, ctx.index@.len() as int)
            + "    default: return false;\n    }\n}\n"@
    }
}

fn first_resolving(ctx: &MachineEmitCtx<'_>, ss: &Vec<StateNode>) -> (r: Option<u8>)
    requires
        ctx.index.wf(),
    ensures
        crate::state_index::opt_u8_view(r) == spec_first_resolving(ctx@, ss@),
{
    let mut i: usize = 0;
    while i < ss.len()
        invariant
            ctx.index.wf(),
            i <= ss.len(),
            spec_first_resolving(ctx@, ss@.take(i as int)) is None,
        decreases ss.len() - i,
    {
        assert(ss@.take(i + 1).drop_last() =~= ss@.take(i as int));
        assert(ss@.take(i + 1).last() == ss@[i as int]);
        let cand: Option<&String> = match &ss[i] {
            StateNode::Simple(x) => Some(&x.id),
            StateNode::Final(x) => Some(&x.id),
            StateNode::Composite(x) => Some(&x.id),
            StateNode::Parallel(x) => Some(&x.id),
            _ => None,
        };
        match cand {
            Some(id) => {
                match ctx.index.lookup(id.as_str()) {
                    Some(x) => {
                        proof {
                            assert(spec_first_resolving(ctx@, ss@.take(i + 1)) == Some(x as int));
                            lemma_first_resolving_prefix(ctx@, ss@, i + 1);
                        }
                        return Some(x);
                    },
                    None => {},
                }
            },
            None => {},
        }
        i += 1;
    }
    assert(ss@.take(i as int) =~= ss@);
    None
}

proof fn lemma_first_resolving_prefix(ctx: CtxView, ss: Seq<StateNode>, k: int)
    requires
        0 <= k <= ss.len(),
        spec_first_resolving(ctx, ss.take(k)) is Some,
    ensures
        spec_first_resolving(ctx, ss) == spec_first_resolving(ctx, ss.take(k)),
    decreases ss.len(),
{
    if k < ss.len() {
        assert(ss.drop_last().take(k) =~= ss.take(k));
        lemma_first_resolving_prefix(ctx, ss.drop_last(), k);
    } else {
        assert(ss.take(k) =~= ss);
    }
}

fn final_ids(ss: &Vec<StateNode>) -> (r: Vec<String>)
    ensures
        strs_view(r@) == spec_final_ids(ss@),
{
    let mut out: Vec<String> = Vec::new();
    let mut i: usize = 0;
    assert(strs_view(out@) =~= spec_final_ids(ss@.take(0)));
    while i < ss.len()
        invariant
            i <= ss.len(),
            strs_view(out@) == spec_final_ids(ss@.take(i as int)),
        decreases ss.len() - i,
    {
        assert(ss@.take(i + 1).drop_last() =~= ss@.take(i as int));
        assert(ss@.take(i + 1).last() == ss@[i as int]);
        let ghost o0 = strs_view(out@);
        match &ss[i] {
            StateNode::Final(f) => {
                out.push(f.id.clone());
            },
            _ => {},
        }
        assert(strs_view(out@) =~= spec_final_ids(ss@.take(i + 1)));
        i += 1;
    }
    assert(ss@.take(i as int) =~= ss@);
    out
}

fn region_check(ctx: &MachineEmitCtx<'_>, m: &str, r: &RegionObject) -> (s: String)
    requires
        ctx.index.wf(),
        m@ == spec_c_ident(ctx.machine.name@),
    ensures
        s@ == spec_region_check(ctx@, *r),
{
    let fids = final_ids(&r.states);
    if fids.len() == 0 {
        return "        return false; /* region has no Final state */\n".to_owned();
    }
    let slot: u8 = match first_resolving(ctx, &r.states) {
        Some(x) => ctx.layout.slot(x),
        None => 0,
    };
    let ghost fv = strs_view(fids@);
    let mut conds = String::new();
    let mut k: usize = 0;
    while k < fids.len()
        invariant
            ctx.index.wf(),
            m@ == spec_c_ident(ctx.machine.name@),
            fv == strs_view(fids@),
            k <= fids.len(),
            conds@ == spec_final_conds(ctx@, slot, fv.take(k as int)),
        decreases fids.len() - k,
    {
        assert(fv.take(k + 1).drop_last() =~= fv.take(k as int));
        assert(fv.take(k + 1).last() == fids@[k as int]@);
        proof {
            lemma_lookup_range(ctx.index@, fids@[k as int]@);
        }
        let fi = ctx.index.must_lookup(fids[k].as_str());
        let mut c = String::new();
        if k > 0 {
            c.append(" || ");
        }
        c.append("m->_active[");
        push_decimal(&mut c, slot as u64);
        c.append("] == ");
        c.append(m);
        c.append("_STATE_");
        c.append(ctx.index.get(fi).c_name.as_str());
        let ghost c0 = conds@;
        conds.append(c.as_str());
        proof {
            if k == 0 {
                assert(fv.take(1) =~= seq![fv[0]]);
                assert(conds@ =~= spec_final_conds(ctx@, slot, fv.take(1)));
            } else {
                assert(conds@ =~= spec_final_conds(ctx@, slot, fv.take(k as int)) + " || "@ + spec_final_cond(ctx@, slot, fv[k as int]));
            }
        }
        k += 1;
    }
    assert(fv.take(k as int) =~= fv);
    let mut b = "        if (!(".to_owned();
    b.append(conds.as_str());
    b.append(")) return false;\n");
    b
}

/// The `<P>_all_regions_final` helper of the machine.
pub fn emit_all_regions_final_helper(ctx: &MachineEmitCtx<'_>) -> (r: String)
    requires
        ctx.index.wf(),
    ensures
        r@ == spec_all_regions_final_helper(ctx@),
{
    let p = ctx.type_prefix();
    let mstr = ctx.macro_prefix();
    let m = mstr.as_str();
    let n = ctx.index.records.len();
    let mut s = "static bool ".to_owned();
    s.append(p); s.append("_all_regions_final(const "); s.append(p); s.append("_t *m, "); s.append(p);
    s.append("_StateId_t parallel_state) {\n");
    s.append("    (void)m; (void)parallel_state;\n");
    let mut any_par = false;
    let mut j: usize = 0;
    while j < n
        invariant
            n == ctx.index@.len(),
            j <= n,
            any_par == (exists|i: int| 0 <= i < j && ctx.index@[i].kind == StateRecordKind::Parallel),
        decreases n - j,
    {
        assert(ctx.index@[j as int] == ctx.index.records@[j as int]@);
        if ctx.index.records[j].kind == StateRecordKind::Parallel {
            any_par = true;
        }
        j += 1;
    }
    if !any_par {
        s.append("    return false; /* no parallel states in this machine */\n}\n");
        return s;
    }
    s.append("    switch (parallel_state) {\n");
    let mut cases = String::new();
    let mut i: usize = 0;
    while i < n
        invariant
            ctx.index.wf(),
            m@ == spec_c_ident(ctx.machine.name@),
            n == ctx.index@.len(),
            i <= n,
            cases@ == spec_parallel_cases(ctx@, i as int),
        decreases n - i,
    {
        let rec = ctx.index.get(i as u8);
        let mut b = String::new();
        if rec.kind == StateRecordKind::Parallel {
            match find_parallel(ctx.machine, rec.ir_id.as_str()) {
                Some(q) => {
                    b.append("    case "); b.append(m); b.append("_STATE_"); b.append(rec.c_name.as_str());
                    b.append(": /* parallel `"); b.append(rec.dsl_name.as_str()); b.append("` */\n");
                    let mut checks = String::new();
                    let mut k: usize = 0;
                    assert(q.regions@.take(0) =~= Seq::<RegionObject>::empty());
                    while k < q.regions.len()
                        invariant
                            ctx.index.wf(),
                            m@ == spec_c_ident(ctx.machine.name@),
                            k <= q.regions.len(),
                            checks@ == spec_region_checks(ctx@, q.regions@.take(k as int)),
                        decreases q.regions.len() - k,
                    {
                        assert(q.regions@.take(k + 1).drop_last() =~= q.regions@.take(k as int));
                        let c = region_check(ctx, m, &q.regions[k]);
                        checks.append(c.as_str());
                        k += 1;
                    }
                    assert(q.regions@.take(k as int) =~= q.regions@);
                    b.append(checks.as_str());
                    b.append("        return true;\n");
                },
                None => {},
            }
        }
        assert(b@ =~= spec_parallel_case(ctx@, i as int));
        cases.append(b.as_str());
        i += 1;
    }
    s.append(cases.as_str());
    s.append("    default: return false;\n    }\n}\n");
    s
}

} // verus!
