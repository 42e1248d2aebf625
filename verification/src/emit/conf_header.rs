//! `<Machine>_conf.h`: the compile-time configuration macros of one
//! machine (queue and defer capacities, overflow policy, strategy tag,
//! region count, timer type, the ISR-safety switch) and the HAL include.

use vstd::prelude::*;

use crate::config::{DispatchStrategy, spec_macro_name};
use crate::state_index::spec_c_ident;
use crate::text::{push_decimal, spec_decimal};

use super::license::{header_block, spec_header_block};
use super::{EmittedFile, FileRole, MachineEmitCtx};

verus! {

/// The strategy tag macro; `Auto` is resolved before emission and reads as
/// the switch strategy.
pub open spec fn spec_strategy_tag(s: DispatchStrategy) -> Seq<char> {
    match s {
        DispatchStrategy::Table => "FSM_STRATEGY_TABLE"@,
        _ => "FSM_STRATEGY_SWITCH"@,
    }
}

/// The body of the configuration header of macro prefix `p`, with queue
/// capacity `qcap`, overflow macro `ov`, strategy tag `st` and region count
/// `regions`.
pub open spec fn spec_conf_body(p: Seq<char>, qcap: nat, ov: Seq<char>, st: Seq<char>, regions: nat) -> Seq<char> {
    spec_conf_head(p) + spec_conf_macros(p, qcap, ov, st, regions)
}

/// The include guard and the HAL include.
pub open spec fn spec_conf_head(p: Seq<char>) -> Seq<char> {
    "#ifndef "@ + p + "_CONF_H\n#define "@ + p + "_CONF_H\n\n#include \"fsm_hal.h\"\n\n"@
}

/// The macro block after the HAL include, through the closing guard.
pub open spec fn spec_conf_macros(p: Seq<char>, qcap: nat, ov: Seq<char>, st: Seq<char>, regions: nat) -> Seq<char> {
    "/* Event queue capacity. MUST be a power of two (bitwise modulo).\n * Compiler enforces this at codegen time. */\n"@
    + "#define "@ + p + "_QUEUE_CAPACITY     "@ + spec_decimal(qcap) + "u\n\n"@
    + "/* Deferred-event buffer capacity. Sized to the queue\n * capacity: the worst case is every queued slot's worth of events being\n * held by a deferring state before release. Not required to be a power of\n * two — the defer buffer is a linearly-scanned bounded array, not a\n * bitwise-modulo ring (release filters arbitrary elements). */\n"@
    + "#define "@ + p + "_DEFER_CAPACITY     "@ + spec_decimal(qcap) + "u\n\n"@
    + "/* Overflow policy: FSM_QUEUE_ASSERT or FSM_QUEUE_DROP_NEWEST. */\n"@
    + "#define "@ + p + "_QUEUE_OVERFLOW     "@ + ov + "\n\n"@
    + "/* Codegen strategy tag — informational, used by debuggers / linters. */\n"@
    + "#define "@ + p + "_CODEGEN_STRATEGY   "@ + st + "\n\n"@
    + "/* Maximum number of simultaneously active leaves. 1 for flat / hierarchical\n * machines; >1 when parallel regions are present. Sized at codegen time\n * from a static analysis of the IR. */\n"@
    + "#define "@ + p + "_MAX_PARALLEL_REGIONS  "@ + spec_decimal(regions) + "u\n\n"@
    + "/* Timer counter type. Must be large enough to hold the largest declared\n * timer duration in milliseconds. uint32_t handles up to ~49.7 days. */\n"@
    + "#define "@ + p + "_TIMER_TYPE         uint32_t\n\n"@
    + "/* Define to compile Motor_post() with ISR-safe critical-section wrapping.\n * Requires FSM_ENTER_CRITICAL / FSM_EXIT_CRITICAL in fsm_hal.h. */\n"@
    + "/* #define "@ + p + "_QUEUE_ISR_SAFE */\n\n#endif /* "@ + p + "_CONF_H */\n"@
}

/// The configuration header `<stem>_conf.h` of the machine in `ctx`: the
/// banner naming the source, a blank line, then the macro block. The queue
/// capacity and the overflow policy are the machine's effective ones, as
/// resolved into the context.
pub fn emit(ctx: &MachineEmitCtx<'_>) -> (f: EmittedFile)
    ensures
        f.path@ == ctx.machine.name@ + "_conf.h"@,
        f.role == FileRole::ConfHeader,
        f.content@ == spec_header_block(
            ctx.config.license_spdx@,
            Some(ctx.machine.name@ + ".fsm (compile-time configuration)"@),
        ) + "\n"@ + spec_conf_body(
            spec_c_ident(ctx.machine.name@),
            ctx.queue_capacity as nat,
            spec_macro_name(ctx.queue_overflow),
            spec_strategy_tag(ctx.strategy),
            ctx.layout.max_parallel_regions as nat,
        ),
{
    let p = ctx.macro_prefix();
    let p = p.as_str();
    let stem = ctx.file_stem();
    let mut src = stem.to_owned();
    src.append(".fsm (compile-time configuration)");
    let mut content = header_block(ctx.config, Some(src.as_str()));
    content.append("\n");
    let overflow = ctx.queue_overflow;
    let strategy = match ctx.strategy {
        DispatchStrategy::Table => "FSM_STRATEGY_TABLE",
        _ => "FSM_STRATEGY_SWITCH",
    };
    let qcap: u64 = ctx.queue_capacity as u64;
    let mut h = "#ifndef ".to_owned();
    h.append(p); h.append("_CONF_H\n#define "); h.append(p);
    h.append("_CONF_H\n\n#include \"fsm_hal.h\"\n\n");
    let mut s = String::new();
    s.append("/* Event queue capacity. MUST be a power of two (bitwise modulo).\n * Compiler enforces this at codegen time. */\n");
    s.append("#define "); s.append(p); s.append("_QUEUE_CAPACITY     "); push_decimal(&mut s, qcap); s.append("u\n\n");
    s.append("/* Deferred-event buffer capacity. Sized to the queue\n * capacity: the worst case is every queued slot's worth of events being\n * held by a deferring state before release. Not required to be a power of\n * two — the defer buffer is a linearly-scanned bounded array, not a\n * bitwise-modulo ring (release filters arbitrary elements). */\n");
    s.append("#define "); s.append(p); s.append("_DEFER_CAPACITY     "); push_decimal(&mut s, qcap); s.append("u\n\n");
    s.append("/* Overflow policy: FSM_QUEUE_ASSERT or FSM_QUEUE_DROP_NEWEST. */\n");
    s.append("#define "); s.append(p); s.append("_QUEUE_OVERFLOW     "); s.append(overflow.macro_name()); s.append("\n\n");
    s.append("/* Codegen strategy tag — informational, used by debuggers / linters. */\n");
    s.append("#define "); s.append(p); s.append("_CODEGEN_STRATEGY   "); s.append(strategy); s.append("\n\n");
    s.append("/* Maximum number of simultaneously active leaves. 1 for flat / hierarchical\n * machines; >1 when parallel regions are present. Sized at codegen time\n * from a static analysis of the IR. */\n");
    s.append("#define "); s.append(p); s.append("_MAX_PARALLEL_REGIONS  ");
    push_decimal(&mut s, ctx.layout.max_parallel_regions as u64); s.append("u\n\n");
    s.append("/* Timer counter type. Must be large enough to hold the largest declared\n * timer duration in milliseconds. uint32_t handles up to ~49.7 days. */\n");
    s.append("#define "); s.append(p); s.append("_TIMER_TYPE         uint32_t\n\n");
    s.append("/* Define to compile Motor_post() with ISR-safe critical-section wrapping.\n * Requires FSM_ENTER_CRITICAL / FSM_EXIT_CRITICAL in fsm_hal.h. */\n");
    s.append("/* #define "); s.append(p); s.append("_QUEUE_ISR_SAFE */\n\n#endif /* "); s.append(p); s.append("_CONF_H */\n");
    content.append(h.as_str());
    content.append(s.as_str());
    let mut path = stem.to_owned();
    path.append("_conf.h");
    EmittedFile { path, role: FileRole::ConfHeader, content }
}

} // verus!
