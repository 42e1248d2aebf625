//! The execution body of one transition, shared by the switch and table
//! dispatch strategies: exit set innermost first, the transition's
//! actions, the `_active[]` update, then the entry set outermost first,
//! with the initial-chain expansion of a composite or parallel target.

use vstd::prelude::*;

use crate::emit::timer::{collect_timers, spec_collect_timers, timers_view, TimerEntry};
use crate::emit::{CtxView, MachineEmitCtx};
use crate::state_index::{spec_c_ident, StateRecordKind};
use crate::text::{push_decimal, spec_decimal};

use self::enter::{enter_ok, enter_region, enter_regions, spec_enter_region, spec_enter_regions};
use self::find::{find_composite, find_parallel, spec_find_composite, spec_find_parallel};

pub mod body;
pub mod enter;
pub mod find;
pub mod leaves;

verus! {

/// The initial-chain expansion of a composite or parallel target `tidx`:
/// a composite enters its first region's initial chain; a parallel enters
/// every region's initial chain and then sets the active count to its
/// region count. Nothing for other targets.
pub open spec fn spec_initial_expansion(ctx: CtxView, tidx: int, pad: Seq<char>) -> Seq<char> {
    let rec = ctx.index@[tidx];
    let n = ctx.index@.len();
    match rec.kind {
        StateRecordKind::Composite => match spec_find_composite(*ctx.machine, rec.ir_id) {
            Some(c) => if c.regions@.len() > 0 {
                spec_enter_region(ctx, c.regions@[0], pad, n)
            } else {
                Seq::empty()
            },
            None => Seq::empty(),
        },
        StateRecordKind::Parallel => match spec_find_parallel(*ctx.machine, rec.ir_id) {
            Some(q) => spec_enter_regions(ctx, q.regions@, pad, n) + pad + "m->_active_count = "@
                + spec_decimal((q.regions@.len() as u8) as nat) + ";\n"@,
            None => Seq::empty(),
        },
        _ => Seq::empty(),
    }
}

pub(crate) fn initial_expansion_with(
    ctx: &MachineEmitCtx<'_>,
    p: &str,
    m: &str,
    ts: &Vec<TimerEntry>,
    target_idx: u8,
    pad: &str,
    out: &mut String,
)
    requires
        enter_ok(ctx@, p@, m@, ts@),
        (target_idx as int) < ctx.index@.len(),
    ensures
        final(out)@ == old(out)@ + spec_initial_expansion(ctx@, target_idx as int, pad@),
{
    let ghost s0 = out@;
    let rec = ctx.index.get(target_idx);
    let fuel: u32 = ctx.index.records.len() as u32;
    match rec.kind {
        StateRecordKind::Composite => {
            match find_composite(ctx.machine, rec.ir_id.as_str()) {
                Some(c) => {
                    if c.regions.len() > 0 {
                        enter_region(ctx, p, m, ts, &c.regions[0], pad, fuel, out);
                    }
                },
                None => {},
            }
        },
        StateRecordKind::Parallel => {
            match find_parallel(ctx.machine, rec.ir_id.as_str()) {
                Some(q) => {
                    enter_regions(ctx, p, m, ts, &q.regions, pad, fuel, out);
                    let n: u8 = q.regions.len() as u8;
                    let mut b = pad.to_owned();
                    b.append("m->_active_count = ");
                    push_decimal(&mut b, n as u64);
                    b.append(";\n");
                    out.append(b.as_str());
                },
                None => {},
            }
        },
        _ => {},
    }
    assert(out@ =~= s0 + spec_initial_expansion(ctx@, target_idx as int, pad@));
}

/// Appends the initial-chain expansion of a composite or parallel
/// transition target (nothing for other targets).
pub fn emit_initial_expansion_for_target(ctx: &MachineEmitCtx<'_>, target_idx: u8, pad: &str, out: &mut String)
    requires
        ctx.index.wf(),
        (target_idx as int) < ctx.index@.len(),
    ensures
        final(out)@ == old(out)@ + spec_initial_expansion(ctx@, target_idx as int, pad@),
{
    let p = ctx.type_prefix();
    let mstr = ctx.macro_prefix();
    let ts = collect_timers(ctx);
    initial_expansion_with(ctx, p, mstr.as_str(), &ts, target_idx, pad, out);
}

} // verus!
