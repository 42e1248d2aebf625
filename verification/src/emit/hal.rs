//! `fsm_hal.h`: the hardware-abstraction contract header, emitted once per
//! generation run. The user supplies the clock and assertion functions it
//! declares; every generated source file includes it.

use vstd::prelude::*;

use crate::config::{spec_macro_name, CodegenConfig, OverflowPolicy};
use crate::text::spec_contains_str;

use super::license::{header_block, spec_header_block};
use super::{EmittedFile, FileRole};

verus! {

/// The guard, the standard includes, the clock and assertion contract and
/// the critical-section macros.
pub const HAL_HEAD: &'static str = r#"#ifndef FSM_HAL_H
#define FSM_HAL_H

/* The POSIX feature macro MUST be set before any system header is parsed.
 * Targets that include `<time.h>` etc. through their RTOS headers can
 * either provide their own `_POSIX_C_SOURCE` macro or define
 * `FSM_HAL_PROVIDE_POSIX_REFERENCE` to opt into the reference impl. */
#if defined(FSM_HAL_PROVIDE_POSIX_REFERENCE) && !defined(_POSIX_C_SOURCE)
#define _POSIX_C_SOURCE 200809L
#endif

#include <stdint.h>
#include <stdbool.h>

#ifdef __cplusplus
extern "C" {
#endif

/* ────────────────────────────────────────────────────────────────────────
 * Clock contract.
 *
 * The user MUST implement this function. Requirements:
 *  - Monotonically non-decreasing.
 *  - Callable from any context (main loop, task, ISR).
 *  - 32-bit wraparound after ~49.7 days is permitted; the runtime relies
 *    on unsigned subtraction to handle wrap correctly.
 *  - Precision MUST be ≤ 1 ms for sub-100ms timers.
 * ──────────────────────────────────────────────────────────────────────── */
#ifndef FSM_HAL_PROVIDE_POSIX_REFERENCE
uint32_t fsm_hal_clock_now_ms(void);
void fsm_hal_assert(bool cond, const char *msg);
#endif

#ifndef FSM_ASSERT
#define FSM_ASSERT(cond) fsm_hal_assert((cond), #cond)
#endif

/* ────────────────────────────────────────────────────────────────────────
 * Optional: critical sections for ISR-safe posting. The default is a
 * no-op; targets that need ISR-safe behaviour redefine these macros in
 * their own platform header included before fsm_hal.h.
 * ──────────────────────────────────────────────────────────────────────── */
#ifndef FSM_ENTER_CRITICAL
#define FSM_ENTER_CRITICAL() ((void)0)
#endif
#ifndef FSM_EXIT_CRITICAL
#define FSM_EXIT_CRITICAL()  ((void)0)
#endif

/* ────────────────────────────────────────────────────────────────────────
 * Queue overflow policy tags. The generated Motor_conf.h selects one via
 * the per-machine MOTOR_QUEUE_OVERFLOW macro.
 * ──────────────────────────────────────────────────────────────────────── */
"#;

/// The overflow-policy tags a configuration header selects from.
pub const HAL_OVERFLOW_TAGS: &'static str = r#"#define FSM_QUEUE_ASSERT        0
#define FSM_QUEUE_DROP_NEWEST   1
"#;

/// The reference host implementation and the closing guard.
pub const HAL_TAIL: &'static str = r#"
/* ────────────────────────────────────────────────────────────────────────
 * Reference host-only implementation (POSIX). Compile a single translation
 * unit with -DFSM_HAL_PROVIDE_POSIX_REFERENCE to pick up trivial
 * implementations suitable for `cargo test` host runs. Embedded targets
 * MUST provide their own.
 *
 * When the macro is defined the symbols below are emitted as `static
 * inline` so multiple TUs may include this header without violating ODR.
 * ──────────────────────────────────────────────────────────────────────── */
#ifdef FSM_HAL_PROVIDE_POSIX_REFERENCE
#include <stdio.h>
#include <stdlib.h>
#include <time.h>

static inline uint32_t fsm_hal_clock_now_ms(void) {
    struct timespec ts;
    clock_gettime(CLOCK_MONOTONIC, &ts);
    return (uint32_t)((uint64_t)ts.tv_sec * 1000u + (uint64_t)ts.tv_nsec / 1000000u);
}

static inline void fsm_hal_assert(bool cond, const char *msg) {
    if (!cond) {
        fprintf(stderr, "[FSM ASSERT] %s\n", msg);
        abort();
    }
}
#endif /* FSM_HAL_PROVIDE_POSIX_REFERENCE */

#ifdef __cplusplus
}
#endif

#endif /* FSM_HAL_H */
"#;

/// The fixed contract text of the HAL header.
pub open spec fn spec_hal_body() -> Seq<char> {
    HAL_HEAD@ + HAL_OVERFLOW_TAGS@ + HAL_TAIL@
}

/// The shared HAL header: always at `fsm_hal.h`, the banner (without a
/// source line), a blank line, then the fixed contract text.
pub fn emit_hal_header(config: &CodegenConfig) -> (f: EmittedFile)
    ensures
        f.path@ == "fsm_hal.h"@,
        f.role == FileRole::Hal,
        f.content@ == spec_header_block(config.license_spdx@, None) + "\n"@ + spec_hal_body(),
{
    let mut content = header_block(config, None);
    content.append("\n");
    content.append(HAL_HEAD);
    content.append(HAL_OVERFLOW_TAGS);
    content.append(HAL_TAIL);
    EmittedFile { path: "fsm_hal.h".to_owned(), role: FileRole::Hal, content }
}

/// Law: whatever the configuration, the HAL header defines every
/// overflow-policy tag a configuration header can select, with distinct
/// values (0 for assert, 1 for drop-newest).
pub proof fn law_hal_defines_overflow_tags(license: Seq<char>, p: OverflowPolicy)
    ensures
        spec_contains_str(spec_header_block(license, None) + "\n"@ + spec_hal_body(), "#define "@ + spec_macro_name(p)),
        HAL_OVERFLOW_TAGS@ == "#define FSM_QUEUE_ASSERT        0\n#define FSM_QUEUE_DROP_NEWEST   1\n"@,
{
    reveal_strlit("#define FSM_QUEUE_ASSERT        0\n#define FSM_QUEUE_DROP_NEWEST   1\n");
    reveal_strlit("#define ");
    reveal_strlit("FSM_QUEUE_ASSERT");
    reveal_strlit("FSM_QUEUE_DROP_NEWEST");
    let tags = "#define FSM_QUEUE_ASSERT        0\n#define FSM_QUEUE_DROP_NEWEST   1\n"@;
    assert(HAL_OVERFLOW_TAGS@ == tags);
    let pre = spec_header_block(license, None) + "\n"@ + HAL_HEAD@;
    let c = spec_header_block(license, None) + "\n"@ + spec_hal_body();
    assert(c =~= pre + tags + HAL_TAIL@);
    let pat = "#define "@ + spec_macro_name(p);
    let off: int = match p {
        OverflowPolicy::Assert => 0,
        OverflowPolicy::Drop => 34,
    };
    let i: int = pre.len() as int + off;
    assert(c.subrange(i, i + pat.len() as int) =~= pat);
}

} // verus!
