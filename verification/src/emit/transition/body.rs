//! The sections of one transition's execution body.

use vstd::prelude::*;

use crate::emit::entry_exit::{
    effective_lca, entry_path, exit_path, lemma_paths_in_range, spec_effective_lca, spec_entry_path, spec_exit_path,
};
use crate::emit::pseudostate::{emit_choice_resolution, is_choice_or_junction, spec_choice_resolution, spec_is_choice_or_junction};
use crate::emit::submachine::{emit_sub_init, ref_state_member, spec_collect_sub_refs, spec_first_subref, spec_sub_init};
use crate::emit::timer::{collect_timers, spec_collect_timers, timers_view, TimerEntry, TimerView};
use crate::emit::trace_hook::{c_string_literal, emit_trace_record_transition, spec_c_string_literal, spec_trace_record_transition};
use crate::emit::{ctx_wf, strings_view, CtxView, MachineEmitCtx};
use crate::expr::{emit_guard, spec_guard};
use crate::ir::{BranchHint, TransitionKind, TransitionObject};
use crate::state_index::{opt_u8_view, spec_active_at_rest, spec_c_ident, RecordView, StateRecordKind};
use crate::stmt::{emit_stmts_fitting, spec_stmts_fitting, StmtContext};
use crate::text::{push_decimal, spec_decimal};

use super::enter::{enter_ok, spec_entry_call};
use super::leaves::{
    collect_parallel_region_leaves_all, collect_parallel_region_leaves_excluding, composite_descendant_leaves,
    spec_composite_descendant_leaves, spec_region_leaves, spec_states_inside_parallel,
};
use super::{initial_expansion_with, spec_initial_expansion};

verus! {

/// The guard check: `if (!<cond>) <fail>`, the condition wrapped in the
/// `<M>_LIKELY` / `<M>_UNLIKELY` macro when the transition carries a
/// branch hint; nothing for an unguarded transition.
pub open spec fn spec_guard_section(ctx: CtxView, t: TransitionObject, pp: Seq<char>, pad: Seq<char>, fail: Seq<char>) -> Seq<char> {
    match t.guard {
        Some(g) => {
            let cond = spec_guard(g, "m->context"@, pp);
            let m = spec_c_ident(ctx.machine.name@);
            let hinted = match t.hint {
                Some(BranchHint::Likely) => m + "_LIKELY("@ + cond + ")"@,
                Some(BranchHint::Rare) => m + "_UNLIKELY("@ + cond + ")"@,
                None => cond,
            };
            pad + "if (!"@ + hinted + ") "@ + fail + "\n"@
        },
        None => Seq::empty(),
    }
}

fn guard_section(ctx: &MachineEmitCtx<'_>, m: &str, t: &TransitionObject, pp: &str, pad: &str, fail: &str) -> (r: String)
    requires
        m@ == spec_c_ident(ctx.machine.name@),
    ensures
        r@ == spec_guard_section(ctx@, *t, pp@, pad@, fail@),
{
    match &t.guard {
        Some(g) => {
            let cond = emit_guard(g, "m->context", pp);
            let hinted = match t.hint {
                Some(BranchHint::Likely) => {
                    let mut h = m.to_owned();
                    h.append("_LIKELY(");
                    h.append(cond.as_str());
                    h.append(")");
                    h
                },
                Some(BranchHint::Rare) => {
                    let mut h = m.to_owned();
                    h.append("_UNLIKELY(");
                    h.append(cond.as_str());
                    h.append(")");
                    h
                },
                None => cond,
            };
            let mut b = pad.to_owned();
            b.append("if (!");
            b.append(hinted.as_str());
            b.append(") ");
            b.append(fail);
            b.append("\n");
            b
        },
        None => String::new(),
    }
}

/// The history snapshots taken before any exit action: one
/// `<P>_history_record_<S>` call per exited state that declares history.
pub open spec fn spec_history_records(ctx: CtxView, exits: Seq<u8>, pad: Seq<char>) -> Seq<char>
    decreases exits.len(),
{
    if exits.len() == 0 {
        Seq::empty()
    } else {
        let rec = ctx.index@[exits.last() as int];
        spec_history_records(ctx, exits.drop_last(), pad) + if rec.history_pseudo is Some {
            pad + ctx.machine.name@ + "_history_record_"@ + rec.c_name + "(m); /* snapshot before exit */\n"@
        } else {
            Seq::empty()
        }
    }
}

/// Every element indexes the table.
pub open spec fn all_in(v: Seq<u8>, n: int) -> bool {
    forall|k: int| 0 <= k < v.len() ==> (#[trigger] v[k] as int) < n
}

fn history_records(ctx: &MachineEmitCtx<'_>, p: &str, exits: &Vec<u8>, pad: &str) -> (r: String)
    requires
        p@ == ctx.machine.name@,
        all_in(exits@, ctx.index@.len() as int),
    ensures
        r@ == spec_history_records(ctx@, exits@, pad@),
{
    let mut s = String::new();
    let mut i: usize = 0;
    assert(exits@.take(0) =~= Seq::<u8>::empty());
    while i < exits.len()
        invariant
            p@ == ctx.machine.name@,
            all_in(exits@, ctx.index@.len() as int),
            i <= exits.len(),
            s@ == spec_history_records(ctx@, exits@.take(i as int), pad@),
        decreases exits.len() - i,
    {
        assert(exits@.take(i + 1).drop_last() =~= exits@.take(i as int));
        assert(exits@.take(i + 1).last() == exits@[i as int]);
        let ghost s0 = s@;
        let rec = ctx.index.get(exits[i]);
        if rec.history_pseudo.is_some() {
            let mut b = pad.to_owned();
            b.append(p);
            b.append("_history_record_");
            b.append(rec.c_name.as_str());
            b.append("(m); /* snapshot before exit */\n");
            s.append(b.as_str());
        }
        assert(s@ =~= spec_history_records(ctx@, exits@.take(i + 1), pad@));
        i += 1;
    }
    assert(exits@.take(i as int) =~= exits@);
    s
}

/// The first exited state that is a parallel state.
pub open spec fn spec_first_parallel(recs: Seq<RecordView>, exits: Seq<u8>) -> Option<u8>
    decreases exits.len(),
{
    if exits.len() == 0 {
        None
    } else {
        match spec_first_parallel(recs, exits.drop_last()) {
            Some(x) => Some(x),
            None => if recs[exits.last() as int].kind == StateRecordKind::Parallel { Some(exits.last()) } else { None },
        }
    }
}

proof fn lemma_first_parallel_prefix(recs: Seq<RecordView>, exits: Seq<u8>, k: int)
    requires
        0 <= k <= exits.len(),
        spec_first_parallel(recs, exits.take(k)) is Some,
    ensures
        spec_first_parallel(recs, exits) == spec_first_parallel(recs, exits.take(k)),
    decreases exits.len(),
{
    if k < exits.len() {
        assert(exits.drop_last().take(k) =~= exits.take(k));
        lemma_first_parallel_prefix(recs, exits.drop_last(), k);
    } else {
        assert(exits.take(k) =~= exits);
    }
}

fn first_parallel(ctx: &MachineEmitCtx<'_>, exits: &Vec<u8>) -> (r: Option<u8>)
    requires
        all_in(exits@, ctx.index@.len() as int),
    ensures
        r == spec_first_parallel(ctx.index@, exits@),
        r matches Some(x) ==> (x as int) < ctx.index@.len(),
{
    let mut i: usize = 0;
    while i < exits.len()
        invariant
            all_in(exits@, ctx.index@.len() as int),
            i <= exits.len(),
            spec_first_parallel(ctx.index@, exits@.take(i as int)) is None,
        decreases exits.len() - i,
    {
        assert(exits@.take(i + 1).drop_last() =~= exits@.take(i as int));
        assert(exits@.take(i + 1).last() == exits@[i as int]);
        if ctx.index.get(exits[i]).kind == StateRecordKind::Parallel {
            proof {
                lemma_first_parallel_prefix(ctx.index@, exits@, i + 1);
            }
            return Some(exits[i]);
        }
        i += 1;
    }
    assert(exits@.take(i as int) =~= exits@);
    None
}

/// The exits of the other regions' leaves when a parallel is left.
pub open spec fn spec_sibling_exits(ctx: CtxView, leaves: Seq<u8>, pad: Seq<char>) -> Seq<char>
    decreases leaves.len(),
{
    if leaves.len() == 0 {
        Seq::empty()
    } else {
        let rec = ctx.index@[leaves.last() as int];
        spec_sibling_exits(ctx, leaves.drop_last(), pad) + if spec_active_at_rest(rec.kind) && rec.kind != StateRecordKind::Final {
            pad + "/* Sibling region leaf exit */\n"@ + pad + ctx.machine.name@ + "_exit_"@ + rec.c_name + "(m);\n"@
        } else {
            Seq::empty()
        }
    }
}

/// The trace records of every region leaf of an exited parallel that is
/// live at run time.
pub open spec fn spec_region_leaf_records(ctx: CtxView, leaves: Seq<u8>, pad: Seq<char>) -> Seq<char>
    decreases leaves.len(),
{
    if leaves.len() == 0 {
        Seq::empty()
    } else {
        let l = leaves.last() as int;
        let rec = ctx.index@[l];
        spec_region_leaf_records(ctx, leaves.drop_last(), pad) + pad + "if (m->_active["@
            + spec_decimal(ctx.layout.spec_slot(l) as nat) + "] == "@ + spec_c_ident(ctx.machine.name@) + "_STATE_"@
            + rec.c_name + ") fsm_trace_csv_append(m->_trace_ext, sizeof(m->_trace_ext), "@
            + spec_c_string_literal(rec.ir_id) + ");\n"@
    }
}

/// Leaving a parallel state: the other regions' leaves are exited, and
/// (under `FSM_TRACE`) every live region leaf is recorded as exited.
pub open spec fn spec_parallel_section(ctx: CtxView, exits: Seq<u8>, source: int, pad: Seq<char>) -> Seq<char> {
    match spec_first_parallel(ctx.index@, exits) {
        None => Seq::empty(),
        Some(pidx) => {
            let pid = ctx.index@[pidx as int].ir_id;
            let inside = spec_states_inside_parallel(*ctx.machine, pid);
            let sib = spec_region_leaves(ctx, inside, true, ctx.layout.spec_slot(source));
            let all = spec_region_leaves(ctx, inside, false, 0);
            spec_sibling_exits(ctx, sib, pad) + if all.len() > 0 {
                pad + "#ifdef FSM_TRACE\n"@ + pad + "/* Parallel active-descendant exit-set */\n"@
                    + spec_region_leaf_records(ctx, all, pad) + pad + "#endif /* FSM_TRACE */\n"@
            } else {
                Seq::empty()
            }
        },
    }
}

fn sibling_exits(ctx: &MachineEmitCtx<'_>, p: &str, leaves: &Vec<u8>, pad: &str) -> (r: String)
    requires
        p@ == ctx.machine.name@,
        all_in(leaves@, ctx.index@.len() as int),
    ensures
        r@ == spec_sibling_exits(ctx@, leaves@, pad@),
{
    let mut s = String::new();
    let mut i: usize = 0;
    assert(leaves@.take(0) =~= Seq::<u8>::empty());
    while i < leaves.len()
        invariant
            p@ == ctx.machine.name@,
            all_in(leaves@, ctx.index@.len() as int),
            i <= leaves.len(),
            s@ == spec_sibling_exits(ctx@, leaves@.take(i as int), pad@),
        decreases leaves.len() - i,
    {
        assert(leaves@.take(i + 1).drop_last() =~= leaves@.take(i as int));
        assert(leaves@.take(i + 1).last() == leaves@[i as int]);
        let rec = ctx.index.get(leaves[i]);
        if rec.kind.is_active_at_rest() && rec.kind != StateRecordKind::Final {
            let mut b = pad.to_owned();
            b.append("/* Sibling region leaf exit */\n");
            b.append(pad);
            b.append(p);
            b.append("_exit_");
            b.append(rec.c_name.as_str());
            b.append("(m);\n");
            s.append(b.as_str());
        }
        assert(s@ =~= spec_sibling_exits(ctx@, leaves@.take(i + 1), pad@));
        i += 1;
    }
    assert(leaves@.take(i as int) =~= leaves@);
    s
}

fn region_leaf_records(ctx: &MachineEmitCtx<'_>, m: &str, leaves: &Vec<u8>, pad: &str) -> (r: String)
    requires
        m@ == spec_c_ident(ctx.machine.name@),
        all_in(leaves@, ctx.index@.len() as int),
    ensures
        r@ == spec_region_leaf_records(ctx@, leaves@, pad@),
{
    let mut s = String::new();
    let mut i: usize = 0;
    assert(leaves@.take(0) =~= Seq::<u8>::empty());
    while i < leaves.len()
        invariant
            m@ == spec_c_ident(ctx.machine.name@),
            all_in(leaves@, ctx.index@.len() as int),
            i <= leaves.len(),
            s@ == spec_region_leaf_records(ctx@, leaves@.take(i as int), pad@),
        decreases leaves.len() - i,
    {
        assert(leaves@.take(i + 1).drop_last() =~= leaves@.take(i as int));
        assert(leaves@.take(i + 1).last() == leaves@[i as int]);
        let l = leaves[i];
        let rec = ctx.index.get(l);
        let lit = c_string_literal(rec.ir_id.as_str());
        let mut b = pad.to_owned();
        b.append("if (m->_active[");
        push_decimal(&mut b, ctx.layout.slot(l) as u64);
        b.append("] == ");
        b.append(m);
        b.append("_STATE_");
        b.append(rec.c_name.as_str());
        b.append(") fsm_trace_csv_append(m->_trace_ext, sizeof(m->_trace_ext), ");
        b.append(lit.as_str());
        b.append(");\n");
        let ghost s0 = s@;
        s.append(b.as_str());
        assert(s@ =~= spec_region_leaf_records(ctx@, leaves@.take(i + 1), pad@));
        i += 1;
    }
    assert(leaves@.take(i as int) =~= leaves@);
    s
}

fn parallel_section(ctx: &MachineEmitCtx<'_>, p: &str, m: &str, exits: &Vec<u8>, source: u8, pad: &str) -> (r: String)
    requires
        ctx.index.wf(),
        p@ == ctx.machine.name@,
        m@ == spec_c_ident(ctx.machine.name@),
        all_in(exits@, ctx.index@.len() as int),
    ensures
        r@ == spec_parallel_section(ctx@, exits@, source as int, pad@),
{
    match first_parallel(ctx, exits) {
        None => String::new(),
        Some(pidx) => {
            let sib = collect_parallel_region_leaves_excluding(ctx, pidx, source);
            let all = collect_parallel_region_leaves_all(ctx, pidx);
            let mut b = sibling_exits(ctx, p, &sib, pad);
            if all.len() > 0 {
                let mut c = pad.to_owned();
                c.append("#ifdef FSM_TRACE\n");
                c.append(pad);
                c.append("/* Parallel active-descendant exit-set */\n");
                let recs = region_leaf_records(ctx, m, &all, pad);
                c.append(recs.as_str());
                c.append(pad);
                c.append("#endif /* FSM_TRACE */\n");
                b.append(c.as_str());
            }
            b
        },
    }
}

/// After leaving a parallel: the extra slots are cleared and the active
/// count collapses to one.
pub open spec fn spec_collapse_section(ctx: CtxView, exits: Seq<u8>, pad: Seq<char>) -> Seq<char> {
    if spec_first_parallel(ctx.index@, exits) is Some {
        pad + "/* Cross-out-of-parallel: collapse `_active[]` back to singleton */\n"@
            + pad + "for (uint8_t __i = 1; __i < "@ + spec_c_ident(ctx.machine.name@)
            + "_MAX_PARALLEL_REGIONS; __i++) m->_active[__i] = 0;\n"@ + pad + "m->_active_count = 1;\n"@
    } else {
        Seq::empty()
    }
}


fn collapse_section(ctx: &MachineEmitCtx<'_>, m: &str, exits: &Vec<u8>, pad: &str) -> (r: String)
    requires
        m@ == spec_c_ident(ctx.machine.name@),
        all_in(exits@, ctx.index@.len() as int),
    ensures
        r@ == spec_collapse_section(ctx@, exits@, pad@),
{
    if first_parallel(ctx, exits).is_some() {
        let mut b = pad.to_owned();
        b.append("/* Cross-out-of-parallel: collapse `_active[]` back to singleton */\n");
        b.append(pad);
        b.append("for (uint8_t __i = 1; __i < ");
        b.append(m);
        b.append("_MAX_PARALLEL_REGIONS; __i++) m->_active[__i] = 0;\n");
        b.append(pad);
        b.append("m->_active_count = 1;\n");
        b
    } else {
        String::new()
    }
}

/// The cancelling line of every timer in `ts` owned by state `idx`.
pub open spec fn spec_cancel_timers(ts: Seq<TimerView>, idx: int, pad: Seq<char>) -> Seq<char>
    decreases ts.len(),
{
    if ts.len() == 0 {
        Seq::empty()
    } else {
        spec_cancel_timers(ts.drop_last(), idx, pad) + if ts.last().owner_state == idx {
            pad + "m->_timer_"@ + ts.last().field_name + "_remaining_ms = 0u; /* P0-4: cancel owned timer on exit */\n"@
        } else {
            Seq::empty()
        }
    }
}

fn push_cancel_timers(s: &mut String, ts: &Vec<TimerEntry>, idx: u8, pad: &str)
    ensures
        final(s)@ == old(s)@ + spec_cancel_timers(timers_view(ts@), idx as int, pad@),
{
    let ghost s0 = s@;
    let ghost tv = timers_view(ts@);
    let mut i: usize = 0;
    assert(s0 + spec_cancel_timers(tv.take(0), idx as int, pad@) =~= s0);
    while i < ts.len()
        invariant
            tv == timers_view(ts@),
            i <= ts.len(),
            s@ == s0 + spec_cancel_timers(tv.take(i as int), idx as int, pad@),
        decreases ts.len() - i,
    {
        assert(tv.take(i + 1).drop_last() =~= tv.take(i as int));
        assert(tv.take(i + 1).last() == ts@[i as int]@);
        if ts[i].owner_state == idx {
            let mut b = pad.to_owned();
            b.append("m->_timer_");
            b.append(ts[i].field_name.as_str());
            b.append("_remaining_ms = 0u; /* P0-4: cancel owned timer on exit */\n");
            s.append(b.as_str());
        }
        assert(s@ =~= s0 + spec_cancel_timers(tv.take(i + 1), idx as int, pad@));
        i += 1;
    }
    assert(tv.take(i as int) =~= tv);
}

/// Some leaf of `ls` is not on the static exit chain.
pub open spec fn spec_any_unskipped(ls: Seq<u8>, exits: Seq<u8>) -> bool
    decreases ls.len(),
{
    ls.len() > 0 && (spec_any_unskipped(ls.drop_last(), exits) || !exits.contains(ls.last()))
}

/// The trace record of a live descendant leaf that has no exit handler.
pub open spec fn spec_leaf_trace_only(ctx: CtxView, l: int, slot: u8, pad: Seq<char>) -> Seq<char> {
    let rec = ctx.index@[l];
    pad + "#ifdef FSM_TRACE\n"@ + pad + "if (m->_active["@ + spec_decimal(slot as nat) + "] == "@
        + spec_c_ident(ctx.machine.name@) + "_STATE_"@ + rec.c_name
        + ") fsm_trace_csv_append(m->_trace_ext, sizeof(m->_trace_ext), "@ + spec_c_string_literal(rec.ir_id)
        + ");\n"@ + pad + "#endif\n"@
}

/// The exit of a live descendant leaf: its exit handler, its timers
/// cancelled, its trace record.
pub open spec fn spec_leaf_exit(ctx: CtxView, l: int, slot: u8, pad: Seq<char>) -> Seq<char> {
    let rec = ctx.index@[l];
    pad + "if (m->_active["@ + spec_decimal(slot as nat) + "] == "@ + spec_c_ident(ctx.machine.name@) + "_STATE_"@
        + rec.c_name + ") {\n"@ + pad + "    "@ + ctx.machine.name@ + "_exit_"@ + rec.c_name + "(m);\n"@
        + spec_cancel_timers(spec_collect_timers(ctx), l, pad + "    "@)
        + pad + "    #ifdef FSM_TRACE\n"@ + pad + "    fsm_trace_csv_append(m->_trace_ext, sizeof(m->_trace_ext), "@
        + spec_c_string_literal(rec.ir_id) + ");\n"@ + pad + "    #endif\n"@ + pad + "}\n"@
}

/// One descendant leaf of an exited composite, given the leaves before it.
pub open spec fn spec_desc_piece(ctx: CtxView, pre: Seq<u8>, l: u8, exits: Seq<u8>, slot: u8, pad: Seq<char>) -> Seq<char> {
    if exits.contains(l) {
        Seq::empty()
    } else {
        let rec = ctx.index@[l as int];
        let first = !spec_any_unskipped(pre, exits);
        let h1 = if first { pad + "/* Composite active-descendant exit-set */\n"@ } else { Seq::empty() };
        let h2 = if first {
            pad + "/* Composite active-descendant exit-set (Final leaf: trace-only, no _exit_<Final>) */\n"@
        } else {
            Seq::empty()
        };
        if spec_first_subref(spec_collect_sub_refs(ctx), rec.ir_id) is Some {
            h1 + spec_leaf_trace_only(ctx, l as int, slot, pad)
        } else if rec.kind == StateRecordKind::Final {
            h2 + spec_leaf_trace_only(ctx, l as int, slot, pad)
        } else {
            h1 + spec_leaf_exit(ctx, l as int, slot, pad)
        }
    }
}

/// The live descendant leaves of an exited composite that are not on the
/// static exit chain: exited first (or only recorded, for a reference or
/// final leaf), under a one-time header comment.
pub open spec fn spec_desc_exits(ctx: CtxView, ls: Seq<u8>, exits: Seq<u8>, slot: u8, pad: Seq<char>) -> Seq<char>
    decreases ls.len(),
{
    if ls.len() == 0 {
        Seq::empty()
    } else {
        spec_desc_exits(ctx, ls.drop_last(), exits, slot, pad) + spec_desc_piece(ctx, ls.drop_last(), ls.last(), exits, slot, pad)
    }
}

/// The exit of one state `e` of the static exit chain.
pub open spec fn spec_exit_one(ctx: CtxView, e: int, exits: Seq<u8>, pad: Seq<char>) -> Seq<char> {
    let rec = ctx.index@[e];
    (if rec.kind == StateRecordKind::Composite {
        spec_desc_exits(ctx, spec_composite_descendant_leaves(ctx, e), exits, ctx.layout.spec_slot(e), pad)
    } else {
        Seq::empty()
    }) + (if spec_active_at_rest(rec.kind) && rec.kind != StateRecordKind::Final
        && spec_first_subref(spec_collect_sub_refs(ctx), rec.ir_id) is None {
        pad + ctx.machine.name@ + "_exit_"@ + rec.c_name + "(m);\n"@
    } else {
        Seq::empty()
    }) + spec_cancel_timers(spec_collect_timers(ctx), e, pad)
}

/// The static exit chain `es` (a prefix of `exits`), innermost first.
pub open spec fn spec_exit_chain(ctx: CtxView, es: Seq<u8>, exits: Seq<u8>, pad: Seq<char>) -> Seq<char>
    decreases es.len(),
{
    if es.len() == 0 {
        Seq::empty()
    } else {
        spec_exit_chain(ctx, es.drop_last(), exits, pad) + spec_exit_one(ctx, es.last() as int, exits, pad)
    }
}

pub(crate) fn u8_contains(v: &Vec<u8>, x: u8) -> (r: bool)
    ensures
        r == v@.contains(x),
{
    let mut i: usize = 0;
    while i < v.len()
        invariant
            i <= v.len(),
            forall|k: int| 0 <= k < i ==> v@[k] != x,
        decreases v.len() - i,
    {
        if v[i] == x {
            assert(v@[i as int] == x);
            return true;
        }
        i += 1;
    }
    false
}

fn leaf_trace_only(ctx: &MachineEmitCtx<'_>, m: &str, l: u8, slot: u8, pad: &str) -> (r: String)
    requires
        m@ == spec_c_ident(ctx.machine.name@),
        (l as int) < ctx.index@.len(),
    ensures
        r@ == spec_leaf_trace_only(ctx@, l as int, slot, pad@),
{
    let rec = ctx.index.get(l);
    let lit = c_string_literal(rec.ir_id.as_str());
    let mut b = pad.to_owned();
    b.append("#ifdef FSM_TRACE\n");
    b.append(pad);
    b.append("if (m->_active[");
    push_decimal(&mut b, slot as u64);
    b.append("] == ");
    b.append(m);
    b.append("_STATE_");
    b.append(rec.c_name.as_str());
    b.append(") fsm_trace_csv_append(m->_trace_ext, sizeof(m->_trace_ext), ");
    b.append(lit.as_str());
    b.append(");\n");
    b.append(pad);
    b.append("#endif\n");
    b
}

fn leaf_exit(ctx: &MachineEmitCtx<'_>, p: &str, m: &str, ts: &Vec<TimerEntry>, l: u8, slot: u8, pad: &str) -> (r: String)
    requires
        enter_ok(ctx@, p@, m@, ts@),
        (l as int) < ctx.index@.len(),
    ensures
        r@ == spec_leaf_exit(ctx@, l as int, slot, pad@),
{
    let rec = ctx.index.get(l);
    let lit = c_string_literal(rec.ir_id.as_str());
    let mut inner = pad.to_owned();
    inner.append("    ");
    let mut b = pad.to_owned();
    b.append("if (m->_active[");
    push_decimal(&mut b, slot as u64);
    b.append("] == ");
    b.append(m);
    b.append("_STATE_");
    b.append(rec.c_name.as_str());
    b.append(") {\n");
    b.append(pad);
    b.append("    ");
    b.append(p);
    b.append("_exit_");
    b.append(rec.c_name.as_str());
    b.append("(m);\n");
    push_cancel_timers(&mut b, ts, l, inner.as_str());
    b.append(pad);
    b.append("    #ifdef FSM_TRACE\n");
    b.append(pad);
    b.append("    fsm_trace_csv_append(m->_trace_ext, sizeof(m->_trace_ext), ");
    b.append(lit.as_str());
    b.append(");\n");
    b.append(pad);
    b.append("    #endif\n");
    b.append(pad);
    b.append("}\n");
    b
}

fn desc_exits(ctx: &MachineEmitCtx<'_>, p: &str, m: &str, ts: &Vec<TimerEntry>, ls: &Vec<u8>, exits: &Vec<u8>, slot: u8, pad: &str) -> (r: String)
    requires
        enter_ok(ctx@, p@, m@, ts@),
        all_in(ls@, ctx.index@.len() as int),
    ensures
        r@ == spec_desc_exits(ctx@, ls@, exits@, slot, pad@),
{
    let mut s = String::new();
    let mut emitted = false;
    let mut i: usize = 0;
    assert(ls@.take(0) =~= Seq::<u8>::empty());
    while i < ls.len()
        invariant
            enter_ok(ctx@, p@, m@, ts@),
            all_in(ls@, ctx.index@.len() as int),
            i <= ls.len(),
            emitted == spec_any_unskipped(ls@.take(i as int), exits@),
            s@ == spec_desc_exits(ctx@, ls@.take(i as int), exits@, slot, pad@),
        decreases ls.len() - i,
    {
        assert(ls@.take(i + 1).drop_last() =~= ls@.take(i as int));
        assert(ls@.take(i + 1).last() == ls@[i as int]);
        let l = ls[i];
        if !u8_contains(exits, l) {
            let rec = ctx.index.get(l);
            let mut b = String::new();
            if ref_state_member(ctx, rec.ir_id.as_str()).is_some() {
                if !emitted {
                    b.append(pad);
                    b.append("/* Composite active-descendant exit-set */\n");
                }
                let t = leaf_trace_only(ctx, m, l, slot, pad);
                b.append(t.as_str());
            } else if rec.kind == StateRecordKind::Final {
                if !emitted {
                    b.append(pad);
                    b.append("/* Composite active-descendant exit-set (Final leaf: trace-only, no _exit_<Final>) */\n");
                }
                let t = leaf_trace_only(ctx, m, l, slot, pad);
                b.append(t.as_str());
            } else {
                if !emitted {
                    b.append(pad);
                    b.append("/* Composite active-descendant exit-set */\n");
                }
                let t = leaf_exit(ctx, p, m, ts, l, slot, pad);
                b.append(t.as_str());
            }
            assert(b@ =~= spec_desc_piece(ctx@, ls@.take(i as int), l, exits@, slot, pad@));
            s.append(b.as_str());
            emitted = true;
        }
        assert(s@ =~= spec_desc_exits(ctx@, ls@.take(i + 1), exits@, slot, pad@));
        i += 1;
    }
    assert(ls@.take(i as int) =~= ls@);
    s
}

fn exit_one(ctx: &MachineEmitCtx<'_>, p: &str, m: &str, ts: &Vec<TimerEntry>, e: u8, exits: &Vec<u8>, pad: &str) -> (r: String)
    requires
        enter_ok(ctx@, p@, m@, ts@),
        (e as int) < ctx.index@.len(),
    ensures
        r@ == spec_exit_one(ctx@, e as int, exits@, pad@),
{
    let rec = ctx.index.get(e);
    let mut b = if rec.kind == StateRecordKind::Composite {
        let ls = composite_descendant_leaves(ctx, e);
        desc_exits(ctx, p, m, ts, &ls, exits, ctx.layout.slot(e), pad)
    } else {
        String::new()
    };
    let mut c = String::new();
    if rec.kind.is_active_at_rest() && rec.kind != StateRecordKind::Final && ref_state_member(ctx, rec.ir_id.as_str()).is_none() {
        c.append(pad);
        c.append(p);
        c.append("_exit_");
        c.append(rec.c_name.as_str());
        c.append("(m);\n");
    }
    b.append(c.as_str());
    let mut d = String::new();
    push_cancel_timers(&mut d, ts, e, pad);
    b.append(d.as_str());
    b
}

fn exit_chain(ctx: &MachineEmitCtx<'_>, p: &str, m: &str, ts: &Vec<TimerEntry>, exits: &Vec<u8>, pad: &str) -> (r: String)
    requires
        enter_ok(ctx@, p@, m@, ts@),
        all_in(exits@, ctx.index@.len() as int),
    ensures
        r@ == spec_exit_chain(ctx@, exits@, exits@, pad@),
{
    let mut s = String::new();
    let mut i: usize = 0;
    assert(exits@.take(0) =~= Seq::<u8>::empty());
    while i < exits.len()
        invariant
            enter_ok(ctx@, p@, m@, ts@),
            all_in(exits@, ctx.index@.len() as int),
            i <= exits.len(),
            s@ == spec_exit_chain(ctx@, exits@.take(i as int), exits@, pad@),
        decreases exits.len() - i,
    {
        assert(exits@.take(i + 1).drop_last() =~= exits@.take(i as int));
        assert(exits@.take(i + 1).last() == exits@[i as int]);
        let one = exit_one(ctx, p, m, ts, exits[i], exits, pad);
        s.append(one.as_str());
        i += 1;
    }
    assert(exits@.take(i as int) =~= exits@);
    s
}


/// The first record whose history vertex is `h`.
pub open spec fn spec_first_history_owner(recs: Seq<RecordView>, h: int) -> Option<int>
    decreases recs.len(),
{
    if recs.len() == 0 {
        None
    } else {
        match spec_first_history_owner(recs.drop_last(), h) {
            Some(i) => Some(i),
            None => if recs.last().history_pseudo == Some(h) { Some(recs.len() - 1) } else { None },
        }
    }
}

proof fn lemma_history_owner_prefix(recs: Seq<RecordView>, k: int, h: int)
    requires
        0 <= k <= recs.len(),
    ensures
        spec_first_history_owner(recs.take(k), h) is Some ==> spec_first_history_owner(recs, h) == spec_first_history_owner(recs.take(k), h),
        spec_first_history_owner(recs, h) matches Some(i) ==> 0 <= i < recs.len(),
    decreases recs.len(),
{
    if recs.len() > 0 {
        if k < recs.len() {
            assert(recs.drop_last().take(k) =~= recs.take(k));
            lemma_history_owner_prefix(recs.drop_last(), k, h);
        } else {
            assert(recs.take(k) =~= recs);
            lemma_history_owner_prefix(recs.drop_last(), recs.len() - 1, h);
        }
    }
}

fn first_history_owner(ctx: &MachineEmitCtx<'_>, h: u8) -> (r: Option<u8>)
    requires
        ctx.index.wf(),
    ensures
        match spec_first_history_owner(ctx.index@, h as int) {
            Some(i) => r == Some(i as u8) && 0 <= i < ctx.index@.len(),
            None => r is None,
        },
        r matches Some(x) ==> (x as int) < ctx.index@.len(),
{
    let recs = &ctx.index.records;
    let mut i: usize = 0;
    proof {
        lemma_history_owner_prefix(ctx.index@, 0, h as int);
    }
    while i < recs.len()
        invariant
            ctx.index.wf(),
            recs@ == ctx.index.records@,
            i <= recs.len(),
            spec_first_history_owner(ctx.index@.take(i as int), h as int) is None,
        decreases recs.len() - i,
    {
        assert(ctx.index@.take(i + 1).drop_last() =~= ctx.index@.take(i as int));
        assert(ctx.index@.take(i + 1).last() == recs@[i as int]@);
        if recs[i].history_pseudo == Some(h) {
            proof {
                lemma_history_owner_prefix(ctx.index@, i + 1, h as int);
            }
            return Some(i as u8);
        }
        i += 1;
    }
    assert(ctx.index@.take(i as int) =~= ctx.index@);
    None
}

/// The entry of one state `e` of the static entry chain: an active-at-rest
/// non-final state is entered (a reference state starts its instance), and
/// the timers it owns are armed.
pub open spec fn spec_entry_one(ctx: CtxView, e: int, pad: Seq<char>) -> Seq<char> {
    let rec = ctx.index@[e];
    (if spec_active_at_rest(rec.kind) && rec.kind != StateRecordKind::Final {
        match spec_first_subref(spec_collect_sub_refs(ctx), rec.ir_id) {
            Some(sr) => spec_sub_init(sr, pad),
            None => spec_entry_call(ctx.machine.name@, pad, rec.c_name),
        }
    } else {
        Seq::empty()
    }) + crate::emit::timer::spec_arm_timers(spec_collect_timers(ctx), e, pad, "P0-4: arm timer on entry"@)
}

/// The static entry chain, outermost first.
pub open spec fn spec_entry_chain(ctx: CtxView, es: Seq<u8>, pad: Seq<char>) -> Seq<char>
    decreases es.len(),
{
    if es.len() == 0 {
        Seq::empty()
    } else {
        spec_entry_chain(ctx, es.drop_last(), pad) + spec_entry_one(ctx, es.last() as int, pad)
    }
}

fn entry_chain(ctx: &MachineEmitCtx<'_>, p: &str, m: &str, ts: &Vec<TimerEntry>, es: &Vec<u8>, pad: &str) -> (r: String)
    requires
        enter_ok(ctx@, p@, m@, ts@),
        all_in(es@, ctx.index@.len() as int),
    ensures
        r@ == spec_entry_chain(ctx@, es@, pad@),
{
    let note = "P0-4: arm timer on entry";
    let mut s = String::new();
    let mut i: usize = 0;
    assert(es@.take(0) =~= Seq::<u8>::empty());
    while i < es.len()
        invariant
            enter_ok(ctx@, p@, m@, ts@),
            all_in(es@, ctx.index@.len() as int),
            note@ == "P0-4: arm timer on entry"@,
            i <= es.len(),
            s@ == spec_entry_chain(ctx@, es@.take(i as int), pad@),
        decreases es.len() - i,
    {
        assert(es@.take(i + 1).drop_last() =~= es@.take(i as int));
        assert(es@.take(i + 1).last() == es@[i as int]);
        let e = es[i];
        let rec = ctx.index.get(e);
        let mut b = String::new();
        if rec.kind.is_active_at_rest() && rec.kind != StateRecordKind::Final {
            match ref_state_member(ctx, rec.ir_id.as_str()) {
                Some(sr) => emit_sub_init(&sr, pad, &mut b),
                None => {
                    b.append(pad);
                    b.append(p);
                    b.append("_entry_");
                    b.append(rec.c_name.as_str());
                    b.append("(m);\n");
                },
            }
        }
        let mut c = String::new();
        crate::emit::timer::push_arm_timers(&mut c, ts, e, pad, note);
        b.append(c.as_str());
        assert(b@ =~= spec_entry_one(ctx@, e as int, pad@));
        s.append(b.as_str());
        i += 1;
    }
    assert(es@.take(i as int) =~= es@);
    s
}

/// The IR ids of the active-at-rest states among `idxs`, in order.
pub open spec fn spec_active_ids(recs: Seq<RecordView>, idxs: Seq<u8>) -> Seq<Seq<char>>
    decreases idxs.len(),
{
    if idxs.len() == 0 {
        Seq::empty()
    } else {
        let r = recs[idxs.last() as int];
        if spec_active_at_rest(r.kind) {
            spec_active_ids(recs, idxs.drop_last()).push(r.ir_id)
        } else {
            spec_active_ids(recs, idxs.drop_last())
        }
    }
}

fn active_ids(ctx: &MachineEmitCtx<'_>, idxs: &Vec<u8>) -> (r: Vec<String>)
    requires
        all_in(idxs@, ctx.index@.len() as int),
    ensures
        strings_view(r@) == spec_active_ids(ctx.index@, idxs@),
{
    let mut out: Vec<String> = Vec::new();
    let mut i: usize = 0;
    assert(idxs@.take(0) =~= Seq::<u8>::empty());
    while i < idxs.len()
        invariant
            all_in(idxs@, ctx.index@.len() as int),
            i <= idxs.len(),
            strings_view(out@) == spec_active_ids(ctx.index@, idxs@.take(i as int)),
        decreases idxs.len() - i,
    {
        assert(idxs@.take(i + 1).drop_last() =~= idxs@.take(i as int));
        assert(idxs@.take(i + 1).last() == idxs@[i as int]);
        let r = &ctx.index.records[idxs[i] as usize];
        assert(ctx.index@[idxs@[i as int] as int] == ctx.index.records@[idxs@[i as int] as int]@);
        let ghost before = out@;
        if r.kind.is_active_at_rest() {
            out.push(r.ir_id.clone());
            assert(strings_view(out@) =~= strings_view(before).push(r.ir_id@));
        }
        i += 1;
    }
    assert(idxs@.take(i as int) =~= idxs@);
    out
}

/// The execution body of transition `t` at `indent` columns (`fail` is
/// the statement a failed guard runs): the guard check; the history
/// snapshots; the exit of a left parallel's other regions; the exit chain
/// innermost first with each exited composite's live descendant leaves and
/// the exited states' timers cancelled; the collapse after leaving a
/// parallel; the transition's actions; the slot write of the target (not
/// for internal transitions, history or choice targets); the entry chain
/// outermost first with timers armed; the initial expansion of a composite
/// or parallel target; the run-time resolution of a choice target; the
/// restore of a history target's owner; and the trace record of what was
/// entered and exited.
pub open spec fn spec_transition_body(t: TransitionObject, ctx: CtxView, pp: Seq<char>, indent: nat, fail: Seq<char>) -> Seq<char> {
    let pad = crate::text::spec_spaces(indent);
    let p = ctx.machine.name@;
    let par = ctx.parents.parents@;
    let src = crate::emit::entry_exit::spec_must_lookup(ctx.index@, t.source@);
    let tgt = crate::emit::entry_exit::spec_must_lookup(ctx.index@, t.target@);
    let exits = spec_exit_path(t, ctx.index@, par);
    let trec = ctx.index@[tgt as int];
    let howner = if trec.kind == StateRecordKind::History { spec_first_history_owner(ctx.index@, tgt as int) } else { None };
    let choice = spec_is_choice_or_junction(ctx, tgt as int);
    let entries = if choice { Seq::empty() } else { spec_entry_path(t, ctx.index@, par) };
    spec_guard_section(ctx, t, pp, pad, fail)
        + spec_history_records(ctx, exits, pad)
        + spec_parallel_section(ctx, exits, src as int, pad)
        + spec_exit_chain(ctx, exits, exits, pad)
        + spec_collapse_section(ctx, exits, pad)
        + spec_stmts_fitting(t.actions@, p, "m->context"@, pp, indent)
        + (if t.kind != TransitionKind::Internal && howner is None && !choice {
            pad + "m->_active["@ + spec_decimal(ctx.layout.spec_slot(tgt as int) as nat) + "] = "@ + spec_c_ident(p)
                + "_STATE_"@ + trec.c_name + ";\n"@
        } else {
            Seq::empty()
        })
        + spec_entry_chain(ctx, entries, pad)
        + (if t.kind != TransitionKind::Internal && !choice
            && (trec.kind == StateRecordKind::Parallel || trec.kind == StateRecordKind::Composite) {
            spec_initial_expansion(ctx, tgt as int, pad)
        } else {
            Seq::empty()
        })
        + (if choice {
            spec_choice_resolution(ctx, tgt as int, spec_effective_lca(t, ctx.index@, par), pp, pad)
        } else {
            Seq::empty()
        })
        + (match howner {
            Some(o) => pad + p + "_history_restore_"@ + ctx.index@[o].c_name
                + "(m); /* FW1-FU-2: resolve shallow_history → remembered leaf */\n"@,
            None => Seq::empty(),
        })
        + spec_trace_record_transition(
            t,
            spec_active_ids(ctx.index@, entries),
            spec_active_ids(ctx.index@, exits),
            pad,
        )
}


/// Appends the execution body of transition `t` at `indent_spaces`
/// columns; `on_guard_fail` is what a failed guard runs (`break;` in a
/// switch case, `return;` in a handler function).
pub fn emit_transition_body(
    t: &TransitionObject,
    ctx: &MachineEmitCtx<'_>,
    payload_prefix: &str,
    indent_spaces: usize,
    on_guard_fail: &str,
    out: &mut String,
)
    requires
        ctx_wf(ctx@),
    ensures
        final(out)@ == old(out)@ + spec_transition_body(*t, ctx@, payload_prefix@, indent_spaces as nat, on_guard_fail@),
{
    let padstr = crate::text::spaces(indent_spaces);
    let pad = padstr.as_str();
    let p = ctx.type_prefix();
    let mstr = ctx.macro_prefix();
    let m = mstr.as_str();
    let ts = collect_timers(ctx);
    proof {
        lemma_paths_in_range(*t, ctx.index@, ctx.parents.parents@);
        crate::emit::entry_exit::lemma_must_lookup_range(ctx.index@, t.source@);
        crate::emit::entry_exit::lemma_must_lookup_range(ctx.index@, t.target@);
    }
    let source_idx = ctx.index.must_lookup(t.source.as_str());
    let target_idx = ctx.index.must_lookup(t.target.as_str());
    proof {
        crate::state_index::lemma_lookup_range(ctx.index@, t.source@);
        crate::state_index::lemma_lookup_range(ctx.index@, t.target@);
    }
    assert(source_idx == crate::emit::entry_exit::spec_must_lookup(ctx.index@, t.source@));
    assert(target_idx == crate::emit::entry_exit::spec_must_lookup(ctx.index@, t.target@));
    let exits = exit_path(t, ctx.index, ctx.parents);

    let ghost gpad = crate::text::spec_spaces(indent_spaces as nat);
    assert(pad@ == gpad);
    let ghost gexits = spec_exit_path(*t, ctx.index@, ctx.parents.parents@);
    assert(exits@ == gexits);
    let mut b = guard_section(ctx, m, t, payload_prefix, pad, on_guard_fail);
    let h = history_records(ctx, p, &exits, pad);
    b.append(h.as_str());
    let par = parallel_section(ctx, p, m, &exits, source_idx, pad);
    b.append(par.as_str());
    let x = exit_chain(ctx, p, m, &ts, &exits, pad);
    b.append(x.as_str());
    let c = collapse_section(ctx, m, &exits, pad);
    b.append(c.as_str());

    let sctx = StmtContext { machine_prefix: p, ctx_prefix: "m->context", payload_prefix };
    let acts = emit_stmts_fitting(&t.actions, &sctx, indent_spaces);
    b.append(acts.as_str());

    let trec = ctx.index.get(target_idx);
    let howner: Option<u8> = if trec.kind == StateRecordKind::History { first_history_owner(ctx, target_idx) } else { None };
    let choice = is_choice_or_junction(ctx, target_idx);

    let mut sw = String::new();
    if t.kind != TransitionKind::Internal && howner.is_none() && !choice {
        sw.append(pad);
        sw.append("m->_active[");
        push_decimal(&mut sw, ctx.layout.slot(target_idx) as u64);
        sw.append("] = ");
        sw.append(m);
        sw.append("_STATE_");
        sw.append(trec.c_name.as_str());
        sw.append(";\n");
    }
    b.append(sw.as_str());
    let ghost trec_v = ctx.index@[target_idx as int];
    let ghost howner_v = if trec_v.kind == StateRecordKind::History { spec_first_history_owner(ctx.index@, target_idx as int) } else { None };
    assert(howner_v == crate::state_index::opt_u8_view(howner));
    assert(sw@ =~= (if t.kind != TransitionKind::Internal && howner_v is None && !choice {
            gpad + "m->_active["@ + spec_decimal(ctx.layout.spec_slot(target_idx as int) as nat) + "] = "@ + spec_c_ident(ctx.machine.name@)
                + "_STATE_"@ + trec_v.c_name + ";\n"@
        } else {
            Seq::empty()
        }));

    let entries: Vec<u8> = if choice { Vec::new() } else { entry_path(t, ctx.index, ctx.parents) };
    let en = entry_chain(ctx, p, m, &ts, &entries, pad);
    b.append(en.as_str());

    let mut ie = String::new();
    if t.kind != TransitionKind::Internal && !choice
        && (trec.kind == StateRecordKind::Parallel || trec.kind == StateRecordKind::Composite) {
        initial_expansion_with(ctx, p, m, &ts, target_idx, pad, &mut ie);
    }
    b.append(ie.as_str());

    let mut ch = String::new();
    if choice {
        let lca = effective_lca(t, ctx.index, ctx.parents);
        emit_choice_resolution(ctx, target_idx, lca, payload_prefix, pad, &mut ch);
    }
    b.append(ch.as_str());

    let mut hr = String::new();
    match howner {
        Some(o) => {
            hr.append(pad);
            hr.append(p);
            hr.append("_history_restore_");
            hr.append(ctx.index.get(o).c_name.as_str());
            hr.append("(m); /* FW1-FU-2: resolve shallow_history → remembered leaf */\n");
        },
        None => {},
    }
    b.append(hr.as_str());
    assert(hr@ =~= (match howner_v {
            Some(o) => gpad + ctx.machine.name@ + "_history_restore_"@ + ctx.index@[o].c_name
                + "(m); /* FW1-FU-2: resolve shallow_history → remembered leaf */\n"@,
            None => Seq::empty(),
        }));
    assert(ch@ =~= (if choice {
            spec_choice_resolution(ctx@, target_idx as int, spec_effective_lca(*t, ctx.index@, ctx.parents.parents@), payload_prefix@, gpad)
        } else {
            Seq::empty()
        }));
    assert(ie@ =~= (if t.kind != TransitionKind::Internal && !choice
            && (trec_v.kind == StateRecordKind::Parallel || trec_v.kind == StateRecordKind::Composite) {
            spec_initial_expansion(ctx@, target_idx as int, gpad)
        } else {
            Seq::empty()
        }));

    let entered_ir = active_ids(ctx, &entries);
    let exited_ir = active_ids(ctx, &exits);
    let tr = emit_trace_record_transition(t, entered_ir.as_slice(), exited_ir.as_slice(), pad);
    b.append(tr.as_str());
    assert(b@ =~= spec_transition_body(*t, ctx@, payload_prefix@, indent_spaces as nat, on_guard_fail@));
    out.append(b.as_str());
}

} // verus!
