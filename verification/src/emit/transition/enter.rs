//! Entering a state together with its initial-chain expansion: a leaf is
//! written into its `_active[]` slot and entered, a composite is entered
//! and then its region's initial leaf, a parallel is entered and then the
//! initial leaf of every region.

use vstd::prelude::*;

use crate::emit::submachine::{emit_sub_init, ref_state_member, spec_collect_sub_refs, spec_first_subref, spec_sub_init};
use crate::emit::timer::{push_arm_timers, spec_arm_timers, spec_collect_timers, timers_view, TimerEntry};
use crate::emit::trace_hook::{push_trace_ent, spec_trace_ent};
use crate::emit::{CtxView, MachineEmitCtx};
use crate::ir::RegionObject;
use crate::state_index::{lemma_lookup_range, spec_c_ident, spec_lookup, StateRecordKind};
use crate::text::{push_decimal, spec_decimal};

use super::find::{find_composite, find_initial_target, find_parallel, spec_find_composite, spec_find_initial_target, spec_find_parallel};

verus! {

/// Follows initial vertices from `cur` (at most `bounces` hops): the first
/// vertex that is not an initial, or nothing when an initial's target is
/// missing or the hops run out.
pub open spec fn spec_initial_chain(ctx: CtxView, cur: int, bounces: nat) -> Seq<u8>
    decreases bounces,
{
    if bounces == 0 {
        Seq::empty()
    } else if ctx.index@[cur].kind == StateRecordKind::Initial {
        match spec_find_initial_target(*ctx.machine, ctx.index@[cur].ir_id) {
            Some(t) => match spec_lookup(ctx.index@, t) {
                Some(next) => spec_initial_chain(ctx, next, (bounces - 1) as nat),
                None => Seq::empty(),
            },
            None => Seq::empty(),
        }
    } else {
        seq![cur as u8]
    }
}

pub proof fn lemma_initial_chain(ctx: CtxView, cur: int, bounces: nat)
    requires
        ctx.index.wf(),
        0 <= cur < ctx.index@.len(),
    ensures
        spec_initial_chain(ctx, cur, bounces).len() <= 1,
        spec_initial_chain(ctx, cur, bounces).len() == 1 ==> (spec_initial_chain(ctx, cur, bounces)[0] as int) < ctx.index@.len(),
    decreases bounces,
{
    if bounces > 0 && ctx.index@[cur].kind == StateRecordKind::Initial {
        if let Some(t) = spec_find_initial_target(*ctx.machine, ctx.index@[cur].ir_id) {
            lemma_lookup_range(ctx.index@, t);
            if let Some(next) = spec_lookup(ctx.index@, t) {
                lemma_initial_chain(ctx, next, (bounces - 1) as nat);
            }
        }
    }
}

/// The vertex an initial chain from `cur` settles on (at most 32 hops):
/// empty when it runs into a missing target, else that one vertex.
pub fn resolve_initial_chain(ctx: &MachineEmitCtx<'_>, cur: u8) -> (r: Vec<u8>)
    requires
        ctx.index.wf(),
        (cur as int) < ctx.index@.len(),
    ensures
        r@ == spec_initial_chain(ctx@, cur as int, 32),
        r@.len() <= 1,
        r@.len() == 1 ==> (r@[0] as int) < ctx.index@.len(),
{
    proof {
        lemma_initial_chain(ctx@, cur as int, 32);
    }
    let mut out: Vec<u8> = Vec::new();
    let mut c = cur;
    let mut bounce: usize = 0;
    while bounce < 32
        invariant
            ctx.index.wf(),
            (c as int) < ctx.index@.len(),
            bounce <= 32,
            out@.len() == 0,
            spec_initial_chain(ctx@, cur as int, 32) == spec_initial_chain(ctx@, c as int, (32 - bounce) as nat),
        decreases 32 - bounce,
    {
        bounce += 1;
        let rec = ctx.index.get(c);
        if rec.kind == StateRecordKind::Initial {
            match find_initial_target(ctx.machine, rec.ir_id.as_str()) {
                Some(target_id) => {
                    match ctx.index.lookup(target_id.as_str()) {
                        Some(next) => {
                            proof {
                                lemma_lookup_range(ctx.index@, target_id@);
                            }
                            c = next;
                        },
                        None => {
                            return out;
                        },
                    }
                },
                None => {
                    return out;
                },
            }
        } else {
            out.push(c);
            assert(out@ =~= seq![c]);
            return out;
        }
    }
    out
}

/// The note on timers armed by an initial-chain entry.
pub open spec fn enter_note() -> Seq<char> {
    "P0-4: arm timer on initial-chain entry"@
}

/// `<P>_entry_<name>(m);` at `pad`.
pub open spec fn spec_entry_call(p: Seq<char>, pad: Seq<char>, name: Seq<char>) -> Seq<char> {
    pad + p + "_entry_"@ + name + "(m);\n"@
}

/// Entering state `idx` and, within `fuel` levels, its initial chain.
pub open spec fn spec_enter_chain(ctx: CtxView, idx: int, pad: Seq<char>, fuel: nat) -> Seq<char>
    decreases fuel, 0int,
{
    if fuel == 0 {
        Seq::empty()
    } else {
        let rec = ctx.index@[idx];
        let p = ctx.machine.name@;
        let ts = spec_collect_timers(ctx);
        let arm = spec_arm_timers(ts, idx, pad, enter_note());
        let ent = spec_trace_ent(pad, rec.ir_id, "#endif\n"@);
        match rec.kind {
            StateRecordKind::Simple | StateRecordKind::Final | StateRecordKind::Submachine => {
                pad + "m->_active["@ + spec_decimal(ctx.layout.spec_slot(idx) as nat) + "] = "@
                    + spec_c_ident(p) + "_STATE_"@ + rec.c_name + ";\n"@ + ent + if rec.kind != StateRecordKind::Final {
                    (match spec_first_subref(spec_collect_sub_refs(ctx), rec.ir_id) {
                        Some(sr) => spec_sub_init(sr, pad),
                        None => spec_entry_call(p, pad, rec.c_name),
                    }) + arm
                } else {
                    Seq::empty()
                }
            },
            StateRecordKind::Composite => {
                spec_entry_call(p, pad, rec.c_name) + arm + ent + match spec_find_composite(*ctx.machine, rec.ir_id) {
                    Some(c) => if c.regions@.len() > 0 {
                        spec_enter_region(ctx, c.regions@[0], pad, (fuel - 1) as nat)
                    } else {
                        Seq::empty()
                    },
                    None => Seq::empty(),
                }
            },
            StateRecordKind::Parallel => {
                spec_entry_call(p, pad, rec.c_name) + arm + ent + match spec_find_parallel(*ctx.machine, rec.ir_id) {
                    Some(q) => spec_enter_regions(ctx, q.regions@, pad, (fuel - 1) as nat),
                    None => Seq::empty(),
                }
            },
            _ => Seq::empty(),
        }
    }
}

/// Entering the initial chain of one region.
pub open spec fn spec_enter_region(ctx: CtxView, r: RegionObject, pad: Seq<char>, fuel: nat) -> Seq<char>
    decreases fuel, 1int,
{
    match spec_lookup(ctx.index@, r.initial@) {
        Some(init) => {
            let chain = spec_initial_chain(ctx, init, 32);
            if chain.len() > 0 && 0 <= chain[0] < ctx.index@.len() {
                spec_enter_chain(ctx, chain[0] as int, pad, fuel)
            } else {
                Seq::empty()
            }
        },
        None => Seq::empty(),
    }
}

/// Entering the initial chains of regions, in order.
pub open spec fn spec_enter_regions(ctx: CtxView, rs: Seq<RegionObject>, pad: Seq<char>, fuel: nat) -> Seq<char>
    decreases fuel, 2 + rs.len(),
{
    if rs.len() == 0 {
        Seq::empty()
    } else {
        spec_enter_regions(ctx, rs.drop_last(), pad, fuel) + spec_enter_region(ctx, rs.last(), pad, fuel)
    }
}

/// What the emitter needs of its context.
pub open spec fn enter_ok(ctx: CtxView, p: Seq<char>, m: Seq<char>, ts: Seq<TimerEntry>) -> bool {
    &&& ctx.index.wf()
    &&& p == ctx.machine.name@
    &&& m == spec_c_ident(ctx.machine.name@)
    &&& timers_view(ts) == spec_collect_timers(ctx)
}

pub(crate) fn enter_region(ctx: &MachineEmitCtx<'_>, p: &str, m: &str, ts: &Vec<TimerEntry>, r: &RegionObject, pad: &str, fuel: u32, out: &mut String)
    requires
        enter_ok(ctx@, p@, m@, ts@),
    ensures
        final(out)@ == old(out)@ + spec_enter_region(ctx@, *r, pad@, fuel as nat),
    decreases fuel, 1int,
{
    let ghost s0 = out@;
    match ctx.index.lookup(r.initial.as_str()) {
        Some(init) => {
            proof {
                lemma_lookup_range(ctx.index@, r.initial@);
            }
            let chain = resolve_initial_chain(ctx, init);
            if chain.len() > 0 {
                enter_chain_fuel(ctx, p, m, ts, chain[0], pad, fuel, out);
            } else {
                assert(out@ =~= s0 + spec_enter_region(ctx@, *r, pad@, fuel as nat));
            }
        },
        None => {
            assert(out@ =~= s0 + spec_enter_region(ctx@, *r, pad@, fuel as nat));
        },
    }
}

pub(crate) fn enter_regions(ctx: &MachineEmitCtx<'_>, p: &str, m: &str, ts: &Vec<TimerEntry>, rs: &Vec<RegionObject>, pad: &str, fuel: u32, out: &mut String)
    requires
        enter_ok(ctx@, p@, m@, ts@),
    ensures
        final(out)@ == old(out)@ + spec_enter_regions(ctx@, rs@, pad@, fuel as nat),
    decreases fuel, 2 + rs@.len(),
{
    let ghost s0 = out@;
    let mut i: usize = 0;
    assert(s0 + spec_enter_regions(ctx@, rs@.take(0), pad@, fuel as nat) =~= s0);
    while i < rs.len()
        invariant
            enter_ok(ctx@, p@, m@, ts@),
            i <= rs.len(),
            out@ == s0 + spec_enter_regions(ctx@, rs@.take(i as int), pad@, fuel as nat),
        decreases rs.len() - i,
    {
        assert(rs@.take(i + 1).drop_last() =~= rs@.take(i as int));
        enter_region(ctx, p, m, ts, &rs[i], pad, fuel, out);
        assert(out@ =~= s0 + spec_enter_regions(ctx@, rs@.take(i + 1), pad@, fuel as nat));
        i += 1;
    }
    assert(rs@.take(i as int) =~= rs@);
}

fn enter_chain_fuel(ctx: &MachineEmitCtx<'_>, p: &str, m: &str, ts: &Vec<TimerEntry>, idx: u8, pad: &str, fuel: u32, out: &mut String)
    requires
        enter_ok(ctx@, p@, m@, ts@),
        (idx as int) < ctx.index@.len(),
    ensures
        final(out)@ == old(out)@ + spec_enter_chain(ctx@, idx as int, pad@, fuel as nat),
    decreases fuel, 0int,
{
    let ghost s0 = out@;
    if fuel == 0 {
        assert(out@ =~= s0 + spec_enter_chain(ctx@, idx as int, pad@, fuel as nat));
        return;
    }
    let rec = ctx.index.get(idx);
    let note = "P0-4: arm timer on initial-chain entry";
    match rec.kind {
        StateRecordKind::Simple | StateRecordKind::Final | StateRecordKind::Submachine => {
            let mut b = pad.to_owned();
            b.append("m->_active[");
            push_decimal(&mut b, ctx.layout.slot(idx) as u64);
            b.append("] = ");
            b.append(m);
            b.append("_STATE_");
            b.append(rec.c_name.as_str());
            b.append(";\n");
            push_trace_ent(&mut b, pad, rec.ir_id.as_str(), "#endif\n");
            if rec.kind != StateRecordKind::Final {
                let mut c = String::new();
                match ref_state_member(ctx, rec.ir_id.as_str()) {
                    Some(sr) => emit_sub_init(&sr, pad, &mut c),
                    None => {
                        c.append(pad);
                        c.append(p);
                        c.append("_entry_");
                        c.append(rec.c_name.as_str());
                        c.append("(m);\n");
                    },
                }
                push_arm_timers(&mut c, ts, idx, pad, note);
                b.append(c.as_str());
            }
            out.append(b.as_str());
        },
        StateRecordKind::Composite => {
            let mut b = pad.to_owned();
            b.append(p);
            b.append("_entry_");
            b.append(rec.c_name.as_str());
            b.append("(m);\n");
            push_arm_timers(&mut b, ts, idx, pad, note);
            push_trace_ent(&mut b, pad, rec.ir_id.as_str(), "#endif\n");
            out.append(b.as_str());
            match find_composite(ctx.machine, rec.ir_id.as_str()) {
                Some(c) => {
                    if c.regions.len() > 0 {
                        enter_region(ctx, p, m, ts, &c.regions[0], pad, fuel - 1, out);
                    }
                },
                None => {},
            }
        },
        StateRecordKind::Parallel => {
            let mut b = pad.to_owned();
            b.append(p);
            b.append("_entry_");
            b.append(rec.c_name.as_str());
            b.append("(m);\n");
            push_arm_timers(&mut b, ts, idx, pad, note);
            push_trace_ent(&mut b, pad, rec.ir_id.as_str(), "#endif\n");
            out.append(b.as_str());
            match find_parallel(ctx.machine, rec.ir_id.as_str()) {
                Some(q) => {
                    enter_regions(ctx, p, m, ts, &q.regions, pad, fuel - 1, out);
                },
                None => {},
            }
        },
        _ => {},
    }
    assert(out@ =~= s0 + spec_enter_chain(ctx@, idx as int, pad@, fuel as nat));
}

/// Entering state `idx` with its initial-chain expansion, nested at most
/// as deep as the index has records (the depth of any well-formed tree).
pub open spec fn spec_emit_enter_chain(ctx: CtxView, idx: int, pad: Seq<char>) -> Seq<char> {
    spec_enter_chain(ctx, idx, pad, ctx.index@.len())
}

/// Appends the entry of state `idx`: a leaf is written into its slot,
/// recorded and entered (a reference state starts its instance, a final
/// state runs no entry), with its timers armed; a composite or parallel is
/// entered, recorded, and its regions' initial chains entered in turn.
pub fn emit_enter_chain(ctx: &MachineEmitCtx<'_>, state_idx: u8, pad: &str, out: &mut String)
    requires
        ctx.index.wf(),
        (state_idx as int) < ctx.index@.len(),
    ensures
        final(out)@ == old(out)@ + spec_emit_enter_chain(ctx@, state_idx as int, pad@),
{
    let p = ctx.type_prefix();
    let mstr = ctx.macro_prefix();
    let ts = crate::emit::timer::collect_timers(ctx);
    let fuel: u32 = ctx.index.records.len() as u32;
    enter_chain_fuel(ctx, p, mstr.as_str(), &ts, state_idx, pad, fuel, out);
}

} // verus!
