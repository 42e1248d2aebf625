//! Choice and junction targets. A transition into a choice (or junction)
//! is resolved at run time: its guarded branches become an `if` / `else
//! if` chain, the `[else]` branch (or an assertion trap) closes it, and
//! every branch ends in the full entry of the state it settles on. A
//! branch into another choice nests, and one into an initial vertex
//! follows it.

use vstd::prelude::*;

use crate::expr::{emit_guard, spec_escape_quotes, spec_guard};
use crate::ir::{ChoiceBranch, GuardExpr};
use crate::parent_table::parents_wf;
use crate::state_index::{lemma_lookup_range, spec_active_at_rest, spec_c_ident, spec_lookup, StateRecordKind};
use crate::stmt::{emit_stmts_fitting, spec_stmts_fitting, StmtContext};
use crate::text::{push_char, push_decimal, spec_decimal};

use super::entry_exit::{up_path, walk_down};
use super::submachine::{emit_sub_init, ref_state_member, spec_collect_sub_refs, spec_first_subref, spec_sub_init};
use super::timer::{push_arm_timers, spec_arm_timers, spec_collect_timers, TimerEntry};
use super::trace_hook::{push_trace_ent, spec_trace_ent};
use super::transition::enter::{enter_ok, spec_entry_call};
use super::transition::find::{branches_of, find_initial_target, spec_branches_of, spec_find_initial_target};
use super::transition::{initial_expansion_with, spec_initial_expansion};
use super::{ctx_wf, CtxView, MachineEmitCtx};

verus! {

/// Whether state `idx` is a choice or a junction.
pub open spec fn spec_is_choice_or_junction(ctx: CtxView, idx: int) -> bool {
    ctx.index@[idx].kind == StateRecordKind::Choice || ctx.index@[idx].kind == StateRecordKind::Junction
}

/// Whether state `idx` is a choice or junction pseudostate.
pub fn is_choice_or_junction(ctx: &MachineEmitCtx<'_>, idx: u8) -> (r: bool)
    requires
        (idx as int) < ctx.index@.len(),
    ensures
        r == spec_is_choice_or_junction(ctx@, idx as int),
{
    let k = ctx.index.get(idx).kind;
    k == StateRecordKind::Choice || k == StateRecordKind::Junction
}

/// The run-time trap of a choice with no matching branch.
pub open spec fn spec_trap(pad: Seq<char>, id: Seq<char>) -> Seq<char> {
    pad + "fsm_hal_assert(false, \"FSM-E0100: choice/junction '"@ + spec_escape_quotes(id)
        + "' has no matching branch\");\n"@
}

fn push_trap(out: &mut String, pad: &str, id: &str)
    ensures
        final(out)@ == old(out)@ + spec_trap(pad@, id@),
{
    let mut b = pad.to_owned();
    b.append("fsm_hal_assert(false, \"FSM-E0100: choice/junction '");
    let ghost start = b@;
    let n = id.unicode_len();
    let mut i: usize = 0;
    while i < n
        invariant
            n == id@.len(),
            i <= n,
            b@ == start + spec_escape_quotes(id@.take(i as int)),
        decreases n - i,
    {
        let c = id.get_char(i);
        assert(id@.take(i + 1).drop_last() =~= id@.take(i as int));
        if c == '\\' {
            push_char(&mut b, '\\');
            push_char(&mut b, '\\');
        } else if c == '"' {
            push_char(&mut b, '\\');
            push_char(&mut b, '"');
        } else {
            push_char(&mut b, c);
        }
        i += 1;
        assert(b@ =~= start + spec_escape_quotes(id@.take(i as int)));
    }
    assert(id@.take(n as int) =~= id@);
    b.append("' has no matching branch\");\n");
    out.append(b.as_str());
}

/// The guarded (non-`else`) branches, in order.
pub open spec fn spec_guarded(bs: Seq<ChoiceBranch>) -> Seq<ChoiceBranch>
    decreases bs.len(),
{
    if bs.len() == 0 {
        Seq::empty()
    } else if bs.last().guard is Else {
        spec_guarded(bs.drop_last())
    } else {
        spec_guarded(bs.drop_last()).push(bs.last())
    }
}

/// The last `else` branch, if any.
pub open spec fn spec_last_else(bs: Seq<ChoiceBranch>) -> Option<ChoiceBranch>
    decreases bs.len(),
{
    if bs.len() == 0 {
        None
    } else if bs.last().guard is Else {
        Some(bs.last())
    } else {
        spec_last_else(bs.drop_last())
    }
}

fn split_branches(bs: &Vec<ChoiceBranch>) -> (r: (Vec<&ChoiceBranch>, Option<&ChoiceBranch>))
    ensures
        r.0@.map_values(|b: &ChoiceBranch| *b) == spec_guarded(bs@),
        match spec_last_else(bs@) {
            Some(e) => r.1 == Some(&e),
            None => r.1 is None,
        },
{
    let mut g: Vec<&ChoiceBranch> = Vec::new();
    let mut e: Option<&ChoiceBranch> = None;
    let mut i: usize = 0;
    while i < bs.len()
        invariant
            i <= bs.len(),
            g@.map_values(|b: &ChoiceBranch| *b) == spec_guarded(bs@.take(i as int)),
            match spec_last_else(bs@.take(i as int)) {
                Some(x) => e == Some(&x),
                None => e is None,
            },
        decreases bs.len() - i,
    {
        assert(bs@.take(i + 1).drop_last() =~= bs@.take(i as int));
        assert(bs@.take(i + 1).last() == bs@[i as int]);
        let ghost g0 = g@;
        match &bs[i].guard {
            GuardExpr::Else => {
                e = Some(&bs[i]);
            },
            _ => {
                g.push(&bs[i]);
                assert(g@.map_values(|b: &ChoiceBranch| *b) =~= g0.map_values(|b: &ChoiceBranch| *b).push(bs@[i as int]));
            },
        }
        i += 1;
    }
    assert(bs@.take(i as int) =~= bs@);
    (g, e)
}

/// The note on timers armed by a choice-resolved entry.
pub open spec fn choice_note() -> Seq<char> {
    "P0-4: arm timer on choice-resolved entry"@
}

/// The entry of one ancestor on the way down to a resolved target: an
/// active-at-rest non-final state is entered (a reference state starts its
/// instance) with its timers armed, and every active-at-rest state is
/// recorded.
pub open spec fn spec_anc_entry(ctx: CtxView, a: int, pad: Seq<char>) -> Seq<char> {
    let rec = ctx.index@[a];
    (if spec_active_at_rest(rec.kind) && rec.kind != StateRecordKind::Final {
        (match spec_first_subref(spec_collect_sub_refs(ctx), rec.ir_id) {
            Some(sr) => spec_sub_init(sr, pad),
            None => spec_entry_call(ctx.machine.name@, pad, rec.c_name),
        }) + spec_arm_timers(spec_collect_timers(ctx), a, pad, choice_note())
    } else {
        Seq::empty()
    }) + (if spec_active_at_rest(rec.kind) {
        spec_trace_ent(pad, rec.ir_id, "#endif /* FSM_TRACE */\n"@)
    } else {
        Seq::empty()
    })
}

/// The entries of the ancestors in `chain` other than `tgt`, in order.
pub open spec fn spec_anc_entries(ctx: CtxView, chain: Seq<u8>, tgt: int, pad: Seq<char>) -> Seq<char>
    decreases chain.len(),
{
    if chain.len() == 0 {
        Seq::empty()
    } else {
        spec_anc_entries(ctx, chain.drop_last(), tgt, pad) + if chain.last() as int != tgt {
            spec_anc_entry(ctx, chain.last() as int, pad)
        } else {
            Seq::empty()
        }
    }
}

/// The full entry of a resolved target `tgt` below the transition's LCA:
/// its ancestors outermost first, then the target itself (a leaf is
/// written into its slot, a composite or parallel is entered and
/// expanded; any other kind traps).
pub open spec fn spec_resolved_entry(ctx: CtxView, tgt: int, lca: u8, pad: Seq<char>) -> Seq<char> {
    let chain = up_path(ctx.parents.parents@, tgt as u8, lca).reverse();
    let rec = ctx.index@[tgt];
    let p = ctx.machine.name@;
    let arm = spec_arm_timers(spec_collect_timers(ctx), tgt, pad, choice_note());
    let ent = spec_trace_ent(pad, rec.ir_id, "#endif /* FSM_TRACE */\n"@);
    spec_anc_entries(ctx, chain, tgt, pad) + match rec.kind {
        StateRecordKind::Simple | StateRecordKind::Final | StateRecordKind::Submachine => {
            pad + "m->_active["@ + spec_decimal(ctx.layout.spec_slot(tgt) as nat) + "] = "@ + spec_c_ident(p)
                + "_STATE_"@ + rec.c_name + ";\n"@ + (if rec.kind != StateRecordKind::Final {
                (match spec_first_subref(spec_collect_sub_refs(ctx), rec.ir_id) {
                    Some(sr) => spec_sub_init(sr, pad),
                    None => spec_entry_call(p, pad, rec.c_name),
                }) + arm
            } else {
                Seq::empty()
            }) + ent
        },
        StateRecordKind::Composite | StateRecordKind::Parallel => {
            spec_entry_call(p, pad, rec.c_name) + arm + ent + spec_initial_expansion(ctx, tgt, pad)
        },
        _ => spec_trap(pad, rec.ir_id),
    }
}

/// What the resolution needs of its context.
pub open spec fn choice_ok(ctx: CtxView, p: Seq<char>, m: Seq<char>, ts: Seq<TimerEntry>) -> bool {
    &&& ctx_wf(ctx)
    &&& enter_ok(ctx, p, m, ts)
}

fn push_entry_or_init(out: &mut String, ctx: &MachineEmitCtx<'_>, p: &str, ir_id: &String, c_name: &String, pad: &str)
    requires
        ctx.index.wf(),
    ensures
        final(out)@ == old(out)@ + match spec_first_subref(spec_collect_sub_refs(ctx@), ir_id@) {
            Some(sr) => spec_sub_init(sr, pad@),
            None => spec_entry_call(p@, pad@, c_name@),
        },
{
    match ref_state_member(ctx, ir_id.as_str()) {
        Some(sr) => emit_sub_init(&sr, pad, out),
        None => {
            let mut b = pad.to_owned();
            b.append(p);
            b.append("_entry_");
            b.append(c_name.as_str());
            b.append("(m);\n");
            out.append(b.as_str());
        },
    }
}

fn resolved_entry(ctx: &MachineEmitCtx<'_>, p: &str, m: &str, ts: &Vec<TimerEntry>, tgt: u8, lca: u8, pad: &str, out: &mut String)
    requires
        choice_ok(ctx@, p@, m@, ts@),
        (tgt as int) < ctx.index@.len(),
    ensures
        final(out)@ == old(out)@ + spec_resolved_entry(ctx@, tgt as int, lca, pad@),
{
    let ghost s0 = out@;
    let note = "P0-4: arm timer on choice-resolved entry";
    let chain = walk_down(ctx.parents, tgt, lca);
    let ghost cv = chain@;
    proof {
        crate::emit::entry_exit::lemma_up_path_in_range(ctx.parents.parents@, tgt, lca);
    }
    let mut i: usize = 0;
    assert(s0 + spec_anc_entries(ctx@, cv.take(0), tgt as int, pad@) =~= s0);
    while i < chain.len()
        invariant
            choice_ok(ctx@, p@, m@, ts@),
            cv == chain@,
            note@ == choice_note(),
            forall|k: int| 0 <= k < cv.len() ==> (#[trigger] cv[k] as int) < ctx.index@.len(),
            i <= chain.len(),
            out@ == s0 + spec_anc_entries(ctx@, cv.take(i as int), tgt as int, pad@),
        decreases chain.len() - i,
    {
        assert(cv.take(i + 1).drop_last() =~= cv.take(i as int));
        assert(cv.take(i + 1).last() == cv[i as int]);
        let a = chain[i];
        let ghost s1 = out@;
        if a != tgt {
            let rec = ctx.index.get(a);
            let mut b = String::new();
            if rec.kind.is_active_at_rest() && rec.kind != StateRecordKind::Final {
                push_entry_or_init(&mut b, ctx, p, &rec.ir_id, &rec.c_name, pad);
                push_arm_timers(&mut b, ts, a, pad, note);
            }
            let mut c = String::new();
            if rec.kind.is_active_at_rest() {
                push_trace_ent(&mut c, pad, rec.ir_id.as_str(), "#endif /* FSM_TRACE */\n");
            }
            b.append(c.as_str());
            assert(b@ =~= spec_anc_entry(ctx@, a as int, pad@));
            out.append(b.as_str());
        }
        assert(out@ =~= s0 + spec_anc_entries(ctx@, cv.take(i + 1), tgt as int, pad@));
        i += 1;
    }
    assert(cv.take(i as int) =~= cv);
    let ghost s2 = out@;
    let rec = ctx.index.get(tgt);
    match rec.kind {
        StateRecordKind::Simple | StateRecordKind::Final | StateRecordKind::Submachine => {
            let mut b = pad.to_owned();
            b.append("m->_active[");
            push_decimal(&mut b, ctx.layout.slot(tgt) as u64);
            b.append("] = ");
            b.append(m);
            b.append("_STATE_");
            b.append(rec.c_name.as_str());
            b.append(";\n");
            if rec.kind != StateRecordKind::Final {
                let mut c = String::new();
                push_entry_or_init(&mut c, ctx, p, &rec.ir_id, &rec.c_name, pad);
                push_arm_timers(&mut c, ts, tgt, pad, note);
                b.append(c.as_str());
            }
            push_trace_ent(&mut b, pad, rec.ir_id.as_str(), "#endif /* FSM_TRACE */\n");
            out.append(b.as_str());
        },
        StateRecordKind::Composite | StateRecordKind::Parallel => {
            let mut b = pad.to_owned();
            b.append(p);
            b.append("_entry_");
            b.append(rec.c_name.as_str());
            b.append("(m);\n");
            push_arm_timers(&mut b, ts, tgt, pad, note);
            push_trace_ent(&mut b, pad, rec.ir_id.as_str(), "#endif /* FSM_TRACE */\n");
            initial_expansion_with(ctx, p, m, ts, tgt, pad, &mut b);
            out.append(b.as_str());
        },
        _ => {
            push_trap(out, pad, rec.ir_id.as_str());
        },
    }
    assert(out@ =~= s0 + spec_resolved_entry(ctx@, tgt as int, lca, pad@));
}


/// The resolution of choice or junction `idx` reached along `path` (the
/// pseudostates being resolved around it): a revisit traps, as does a
/// vertex without branches; otherwise the guarded branches become an
/// `if` / `else if` chain closed by the `[else]` branch or, without one,
/// by a trap.
pub open spec fn spec_resolve(ctx: CtxView, idx: int, lca: u8, pp: Seq<char>, pad: Seq<char>, path: Seq<u8>) -> Seq<char>
    decreases 256 - path.len(), 0int,
{
    let ir = ctx.index@[idx].ir_id;
    if path.contains(idx as u8) || path.len() >= 256 {
        spec_trap(pad, ir)
    } else {
        match spec_branches_of(*ctx.machine, ir) {
            None => spec_trap(pad, ir),
            Some(bs) => {
                let path2 = path.push(idx as u8);
                let g = spec_guarded(bs);
                spec_arms(ctx, g, lca, pp, pad, path2) + match spec_last_else(bs) {
                    Some(eb) => if g.len() == 0 {
                        spec_body(ctx, eb, lca, pp, pad, path2)
                    } else {
                        pad + "} else {\n"@ + spec_body(ctx, eb, lca, pp, pad, path2) + pad + "}\n"@
                    },
                    None => if g.len() > 0 {
                        pad + "} else {\n"@ + spec_trap(pad + "    "@, ir) + pad + "}\n"@
                    } else {
                        Seq::empty()
                    },
                }
            },
        }
    }
}

/// The `if` / `else if` arms of the guarded branches `gs`.
pub open spec fn spec_arms(ctx: CtxView, gs: Seq<ChoiceBranch>, lca: u8, pp: Seq<char>, pad: Seq<char>, path: Seq<u8>) -> Seq<char>
    decreases 256 - path.len(), 2 + gs.len(),
{
    if gs.len() == 0 {
        Seq::empty()
    } else {
        spec_arms(ctx, gs.drop_last(), lca, pp, pad, path) + pad + (if gs.len() == 1 { "if"@ } else { "} else if"@ })
            + " ("@ + spec_guard(gs.last().guard, "m->context"@, pp) + ") {\n"@
            + spec_body(ctx, gs.last(), lca, pp, pad, path)
    }
}

/// One branch, one level deeper: its actions, then the resolution of its
/// target (a nested choice, an initial vertex followed, or the full entry
/// of a state; nothing when the target is unknown).
pub open spec fn spec_body(ctx: CtxView, b: ChoiceBranch, lca: u8, pp: Seq<char>, pad: Seq<char>, path: Seq<u8>) -> Seq<char>
    decreases 256 - path.len(), 1int,
{
    let inner = pad + "    "@;
    spec_stmts_fitting(b.actions@, ctx.machine.name@, "m->context"@, pp, inner.len()) + match spec_lookup(ctx.index@, b.target@) {
        None => Seq::empty(),
        Some(t) => {
            let k = ctx.index@[t].kind;
            if k == StateRecordKind::Choice || k == StateRecordKind::Junction {
                spec_resolve(ctx, t, lca, pp, inner, path)
            } else if k == StateRecordKind::Initial {
                spec_redirect(ctx, t, lca, pp, inner, path)
            } else {
                spec_resolved_entry(ctx, t, lca, inner)
            }
        },
    }
}

/// A branch into initial vertex `idx`: its target is resolved in turn (a
/// revisit traps; a missing target emits nothing).
pub open spec fn spec_redirect(ctx: CtxView, idx: int, lca: u8, pp: Seq<char>, pad: Seq<char>, path: Seq<u8>) -> Seq<char>
    decreases 256 - path.len(), 0int,
{
    let ir = ctx.index@[idx].ir_id;
    if path.contains(idx as u8) || path.len() >= 256 {
        spec_trap(pad, ir)
    } else {
        match spec_find_initial_target(*ctx.machine, ir) {
            None => Seq::empty(),
            Some(tid) => match spec_lookup(ctx.index@, tid) {
                None => Seq::empty(),
                Some(t) => {
                    let path2 = path.push(idx as u8);
                    let k = ctx.index@[t].kind;
                    if k == StateRecordKind::Choice || k == StateRecordKind::Junction {
                        spec_resolve(ctx, t, lca, pp, pad, path2)
                    } else if k == StateRecordKind::Initial {
                        spec_redirect(ctx, t, lca, pp, pad, path2)
                    } else {
                        spec_resolved_entry(ctx, t, lca, pad)
                    }
                },
            },
        }
    }
}

fn path_contains(path: &Vec<u8>, x: u8) -> (r: bool)
    ensures
        r == path@.contains(x),
{
    let mut i: usize = 0;
    while i < path.len()
        invariant
            i <= path.len(),
            forall|k: int| 0 <= k < i ==> path@[k] != x,
        decreases path.len() - i,
    {
        if path[i] == x {
            assert(path@[i as int] == x);
            return true;
        }
        i += 1;
    }
    false
}

fn dispatch_target(
    ctx: &MachineEmitCtx<'_>, p: &str, m: &str, ts: &Vec<TimerEntry>,
    t: u8, lca: u8, pp: &str, pad: &str, path: &mut Vec<u8>, out: &mut String,
)
    requires
        choice_ok(ctx@, p@, m@, ts@),
        (t as int) < ctx.index@.len(),
        1 <= old(path)@.len() <= 256,
    ensures
        final(path)@ == old(path)@,
        final(out)@ == old(out)@ + ({
            let k = ctx.index@[t as int].kind;
            if k == StateRecordKind::Choice || k == StateRecordKind::Junction {
                spec_resolve(ctx@, t as int, lca, pp@, pad@, old(path)@)
            } else if k == StateRecordKind::Initial {
                spec_redirect(ctx@, t as int, lca, pp@, pad@, old(path)@)
            } else {
                spec_resolved_entry(ctx@, t as int, lca, pad@)
            }
        }),
    decreases 256 - old(path)@.len(), 1int,
{
    let k = ctx.index.get(t).kind;
    if k == StateRecordKind::Choice || k == StateRecordKind::Junction {
        resolve(ctx, p, m, ts, t, lca, pp, pad, path, out);
    } else if k == StateRecordKind::Initial {
        redirect(ctx, p, m, ts, t, lca, pp, pad, path, out);
    } else {
        resolved_entry(ctx, p, m, ts, t, lca, pad, out);
    }
}

fn body(
    ctx: &MachineEmitCtx<'_>, p: &str, m: &str, ts: &Vec<TimerEntry>,
    b: &ChoiceBranch, lca: u8, pp: &str, pad: &str, path: &mut Vec<u8>, out: &mut String,
)
    requires
        choice_ok(ctx@, p@, m@, ts@),
        1 <= old(path)@.len() <= 256,
    ensures
        final(path)@ == old(path)@,
        final(out)@ == old(out)@ + spec_body(ctx@, *b, lca, pp@, pad@, old(path)@),
    decreases 256 - old(path)@.len(), 2int,
{
    let ghost s0 = out@;
    let mut inner = pad.to_owned();
    inner.append("    ");
    proof {
        reveal_strlit("    ");
    }
    assert(inner@.len() == pad@.len() + 4);
    let n = inner.as_str().unicode_len();
    let sctx = StmtContext { machine_prefix: p, ctx_prefix: "m->context", payload_prefix: pp };
    let acts = emit_stmts_fitting(&b.actions, &sctx, n);
    out.append(acts.as_str());
    proof {
        lemma_lookup_range(ctx.index@, b.target@);
    }
    match ctx.index.lookup(b.target.as_str()) {
        None => {},
        Some(t) => {
            dispatch_target(ctx, p, m, ts, t, lca, pp, inner.as_str(), path, out);
        },
    }
    assert(out@ =~= s0 + spec_body(ctx@, *b, lca, pp@, pad@, old(path)@));
}

fn resolve(
    ctx: &MachineEmitCtx<'_>, p: &str, m: &str, ts: &Vec<TimerEntry>,
    idx: u8, lca: u8, pp: &str, pad: &str, path: &mut Vec<u8>, out: &mut String,
)
    requires
        choice_ok(ctx@, p@, m@, ts@),
        (idx as int) < ctx.index@.len(),
        old(path)@.len() <= 256,
    ensures
        final(path)@ == old(path)@,
        final(out)@ == old(out)@ + spec_resolve(ctx@, idx as int, lca, pp@, pad@, old(path)@),
    decreases 256 - old(path)@.len(), 0int,
{
    let ghost s0 = out@;
    let ghost path0 = path@;
    let rec = ctx.index.get(idx);
    if path_contains(path, idx) || path.len() >= 256 {
        push_trap(out, pad, rec.ir_id.as_str());
        return;
    }
    match branches_of(ctx.machine, rec.ir_id.as_str()) {
        None => {
            push_trap(out, pad, rec.ir_id.as_str());
        },
        Some(bs) => {
            path.push(idx);
            let ghost path2 = path@;
            let (g, e) = split_branches(bs);
            let ghost gv = g@.map_values(|x: &ChoiceBranch| *x);
            let mut k: usize = 0;
            assert(s0 + spec_arms(ctx@, gv.take(0), lca, pp@, pad@, path2) =~= s0);
            while k < g.len()
                invariant
                    choice_ok(ctx@, p@, m@, ts@),
                    path@ == path2,
                    path0 == old(path)@,
                    path2.len() == path0.len() + 1,
                    1 <= path2.len() <= 256,
                    gv == g@.map_values(|x: &ChoiceBranch| *x),
                    k <= g.len(),
                    out@ == s0 + spec_arms(ctx@, gv.take(k as int), lca, pp@, pad@, path2),
                decreases g.len() - k,
            {
                assert(gv.take(k + 1).drop_last() =~= gv.take(k as int));
                assert(gv.take(k + 1).last() == *g@[k as int]);
                let br = g[k];
                let cond = emit_guard(&br.guard, "m->context", pp);
                let mut h = pad.to_owned();
                if k == 0 {
                    h.append("if");
                } else {
                    h.append("} else if");
                }
                h.append(" (");
                h.append(cond.as_str());
                h.append(") {\n");
                out.append(h.as_str());
                body(ctx, p, m, ts, br, lca, pp, pad, path, out);
                assert(out@ =~= s0 + spec_arms(ctx@, gv.take(k + 1), lca, pp@, pad@, path2));
                k += 1;
            }
            assert(gv.take(k as int) =~= gv);
            let ghost s1 = out@;
            match e {
                Some(eb) => {
                    if g.len() == 0 {
                        body(ctx, p, m, ts, eb, lca, pp, pad, path, out);
                    } else {
                        let mut h = pad.to_owned();
                        h.append("} else {\n");
                        out.append(h.as_str());
                        body(ctx, p, m, ts, eb, lca, pp, pad, path, out);
                        let mut c = pad.to_owned();
                        c.append("}\n");
                        out.append(c.as_str());
                    }
                },
                None => {
                    if g.len() > 0 {
                        let mut h = pad.to_owned();
                        h.append("} else {\n");
                        let mut inner = pad.to_owned();
                        inner.append("    ");
                        push_trap(&mut h, inner.as_str(), rec.ir_id.as_str());
                        h.append(pad);
                        h.append("}\n");
                        out.append(h.as_str());
                    }
                },
            }
            path.pop();
            assert(path@ =~= path0);
        },
    }
    assert(out@ =~= s0 + spec_resolve(ctx@, idx as int, lca, pp@, pad@, path0));
}

fn redirect(
    ctx: &MachineEmitCtx<'_>, p: &str, m: &str, ts: &Vec<TimerEntry>,
    idx: u8, lca: u8, pp: &str, pad: &str, path: &mut Vec<u8>, out: &mut String,
)
    requires
        choice_ok(ctx@, p@, m@, ts@),
        (idx as int) < ctx.index@.len(),
        old(path)@.len() <= 256,
    ensures
        final(path)@ == old(path)@,
        final(out)@ == old(out)@ + spec_redirect(ctx@, idx as int, lca, pp@, pad@, old(path)@),
    decreases 256 - old(path)@.len(), 0int,
{
    let ghost s0 = out@;
    let ghost path0 = path@;
    let rec = ctx.index.get(idx);
    if path_contains(path, idx) || path.len() >= 256 {
        push_trap(out, pad, rec.ir_id.as_str());
        return;
    }
    match find_initial_target(ctx.machine, rec.ir_id.as_str()) {
        None => {},
        Some(tid) => {
            proof {
                lemma_lookup_range(ctx.index@, tid@);
            }
            match ctx.index.lookup(tid.as_str()) {
                None => {},
                Some(t) => {
                    path.push(idx);
                    dispatch_target(ctx, p, m, ts, t, lca, pp, pad, path, out);
                    path.pop();
                    assert(path@ =~= path0);
                },
            }
        },
    }
    assert(out@ =~= s0 + spec_redirect(ctx@, idx as int, lca, pp@, pad@, path0));
}

/// The run-time resolution of a transition into choice or junction
/// `choice_idx`, whose LCA is `lca`.
pub open spec fn spec_choice_resolution(ctx: CtxView, choice_idx: int, lca: u8, pp: Seq<char>, pad: Seq<char>) -> Seq<char> {
    spec_resolve(ctx, choice_idx, lca, pp, pad, Seq::empty())
}

/// Appends the run-time resolution of a transition into choice or
/// junction `choice_idx`: the guard chain of its branches, each ending in
/// the full entry (ancestors below `lca`, then the state) of the state the
/// branch settles on, with the trace records of what it entered.
pub fn emit_choice_resolution(
    ctx: &MachineEmitCtx<'_>,
    choice_idx: u8,
    lca: u8,
    payload_prefix: &str,
    pad: &str,
    out: &mut String,
)
    requires
        ctx_wf(ctx@),
        (choice_idx as int) < ctx.index@.len(),
    ensures
        final(out)@ == old(out)@ + spec_choice_resolution(ctx@, choice_idx as int, lca, payload_prefix@, pad@),
{
    let p = ctx.type_prefix();
    let mstr = ctx.macro_prefix();
    let ts = super::timer::collect_timers(ctx);
    let mut path: Vec<u8> = Vec::new();
    resolve(ctx, p, mstr.as_str(), &ts, choice_idx, lca, payload_prefix, pad, &mut path, out);
}

} // verus!
