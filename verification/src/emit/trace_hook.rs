//! The compile-time-gated host-trace hook. Everything it emits sits inside
//! `#ifdef FSM_TRACE`, so a build without that macro is unaffected. The
//! hook records what the generated C itself did, one canonical line per
//! run-to-completion step, for comparison against a reference simulator.

use vstd::prelude::*;

use crate::ir::TransitionObject;
use crate::state_index::{records_view, spec_c_ident, RecordView, StateRecord, StateRecordKind};
use crate::text::{push_char, push_decimal, sorted_comma_join, spec_decimal, spec_join_commas, spec_sorted_strings};

use super::timer::{collect_timers, spec_collect_timers, timers_view, TimerEntry, TimerView};
use super::{strings_view, CtxView, MachineEmitCtx};

verus! {

/// The unit separator (0x1F): the field delimiter of a canonical trace
/// line. It cannot appear in an IR id, an event name or a kind keyword.
pub const FIELD_SEP: char = '\u{1f}';

// ---------------------------------------------------------------------
// C string literals
// ---------------------------------------------------------------------

/// The C spelling of one character inside a string literal: backslash,
/// double quote, newline, tab and carriage return are escaped.
pub open spec fn spec_c_escape(c: char) -> Seq<char> {
    if c == '\\' {
        seq!['\\', '\\']
    } else if c == '"' {
        seq!['\\', '"']
    } else if c == '\n' {
        seq!['\\', 'n']
    } else if c == '\t' {
        seq!['\\', 't']
    } else if c == '\r' {
        seq!['\\', 'r']
    } else {
        seq![c]
    }
}

/// The escaped body of a C string literal.
pub open spec fn spec_c_escape_all(s: Seq<char>) -> Seq<char>
    decreases s.len(),
{
    if s.len() == 0 {
        Seq::empty()
    } else {
        spec_c_escape_all(s.drop_last()) + spec_c_escape(s.last())
    }
}

/// A C string literal holding `s`.
pub open spec fn spec_c_string_literal(s: Seq<char>) -> Seq<char> {
    seq!['"'] + spec_c_escape_all(s) + seq!['"']
}

/// Reading one escape back: the character after a backslash.
pub open spec fn spec_c_unescape_char(c: char) -> char {
    if c == 'n' {
        '\n'
    } else if c == 't' {
        '\t'
    } else if c == 'r' {
        '\r'
    } else {
        c
    }
}

/// Reading the body of a C string literal back, front to back: a backslash
/// and the character after it stand for one character.
pub open spec fn spec_c_unescape(t: Seq<char>) -> Seq<char>
    decreases t.len(),
{
    if t.len() == 0 {
        Seq::empty()
    } else if t[0] == '\\' && t.len() >= 2 {
        seq![spec_c_unescape_char(t[1])] + spec_c_unescape(t.skip(2))
    } else {
        seq![t[0]] + spec_c_unescape(t.skip(1))
    }
}

proof fn lemma_escape_concat(a: Seq<char>, b: Seq<char>)
    ensures
        spec_c_escape_all(a + b) == spec_c_escape_all(a) + spec_c_escape_all(b),
    decreases b.len(),
{
    if b.len() == 0 {
        assert(a + b =~= a);
        assert(spec_c_escape_all(a) + spec_c_escape_all(b) =~= spec_c_escape_all(a));
    } else {
        lemma_escape_concat(a, b.drop_last());
        assert((a + b).drop_last() =~= a + b.drop_last());
        assert((a + b).last() == b.last());
        assert(spec_c_escape_all(a) + spec_c_escape_all(b.drop_last()) + spec_c_escape(b.last()) =~= spec_c_escape_all(a)
            + (spec_c_escape_all(b.drop_last()) + spec_c_escape(b.last())));
    }
}

proof fn lemma_unescape_one(c: char, r: Seq<char>)
    ensures
        spec_c_unescape(spec_c_escape(c) + r) == seq![c] + spec_c_unescape(r),
{
    let t = spec_c_escape(c) + r;
    if spec_c_escape(c).len() == 2 {
        assert(t[0] == '\\');
        assert(t.skip(2) =~= r);
    } else {
        assert(t[0] == c);
        assert(t.skip(1) =~= r);
    }
}

proof fn lemma_unescape_all(s: Seq<char>)
    ensures
        spec_c_unescape(spec_c_escape_all(s)) == s,
    decreases s.len(),
{
    if s.len() > 0 {
        let rest = s.skip(1);
        assert(s =~= seq![s[0]] + rest);
        lemma_escape_concat(seq![s[0]], rest);
        let one = seq![s[0]];
        assert(one.drop_last() =~= Seq::<char>::empty());
        assert(one.last() == s[0]);
        assert(spec_c_escape_all(one.drop_last()) =~= Seq::<char>::empty());
        assert(spec_c_escape_all(one) =~= spec_c_escape(s[0]));
        lemma_unescape_one(s[0], spec_c_escape_all(rest));
        lemma_unescape_all(rest);
    }
}

proof fn lemma_escape_no_controls(s: Seq<char>)
    ensures
        forall|i: int| 0 <= i < spec_c_escape_all(s).len() ==> {
            let c = #[trigger] spec_c_escape_all(s)[i];
            c != '\n' && c != '\t' && c != '\r'
        },
    decreases s.len(),
{
    if s.len() > 0 {
        lemma_escape_no_controls(s.drop_last());
        let a = spec_c_escape_all(s.drop_last());
        let e = spec_c_escape(s.last());
        assert forall|i: int| 0 <= i < spec_c_escape_all(s).len() implies {
            let c = #[trigger] spec_c_escape_all(s)[i];
            c != '\n' && c != '\t' && c != '\r'
        } by {
            if i < a.len() {
                assert(spec_c_escape_all(s)[i] == a[i]);
            } else {
                assert(spec_c_escape_all(s)[i] == e[i - a.len()]);
            }
        }
    }
}

/// Law: a rendered C string literal is delimited by double quotes, holds
/// no raw newline, tab or carriage return, and reading its body back
/// (undoing each escape) gives back exactly the input.
pub proof fn law_c_string_literal_round_trip(s: Seq<char>)
    ensures
        spec_c_string_literal(s).len() >= 2,
        spec_c_string_literal(s)[0] == '"',
        spec_c_string_literal(s).last() == '"',
        spec_c_unescape(spec_c_string_literal(s).subrange(1, spec_c_string_literal(s).len() - 1)) == s,
        forall|i: int| 1 <= i < spec_c_string_literal(s).len() - 1 ==> {
            let c = #[trigger] spec_c_string_literal(s)[i];
            c != '\n' && c != '\t' && c != '\r'
        },
{
    let lit = spec_c_string_literal(s);
    let body = spec_c_escape_all(s);
    assert(lit.subrange(1, lit.len() - 1) =~= body);
    lemma_unescape_all(s);
    lemma_escape_no_controls(s);
    assert forall|i: int| 1 <= i < lit.len() - 1 implies {
        let c = #[trigger] lit[i];
        c != '\n' && c != '\t' && c != '\r'
    } by {
        assert(lit[i] == body[i - 1]);
    }
}

/// Renders `s` as a C string literal, escaping minimally.
pub fn c_string_literal(s: &str) -> (r: String)
    ensures
        r@ == spec_c_string_literal(s@),
{
    let mut out = String::new();
    push_char(&mut out, '"');
    let n = s.unicode_len();
    let mut i: usize = 0;
    while i < n
        invariant
            n == s@.len(),
            i <= n,
            out@ == seq!['"'] + spec_c_escape_all(s@.take(i as int)),
        decreases n - i,
    {
        let c = s.get_char(i);
        let ghost before = out@;
        if c == '\\' {
            push_char(&mut out, '\\');
            push_char(&mut out, '\\');
        } else if c == '"' {
            push_char(&mut out, '\\');
            push_char(&mut out, '"');
        } else if c == '\n' {
            push_char(&mut out, '\\');
            push_char(&mut out, 'n');
        } else if c == '\t' {
            push_char(&mut out, '\\');
            push_char(&mut out, 't');
        } else if c == '\r' {
            push_char(&mut out, '\\');
            push_char(&mut out, 'r');
        } else {
            push_char(&mut out, c);
        }
        assert(out@ =~= before + spec_c_escape(c));
        assert(s@.take(i + 1).drop_last() =~= s@.take(i as int));
        i += 1;
    }
    assert(s@.take(n as int) =~= s@);
    push_char(&mut out, '"');
    out
}

// ---------------------------------------------------------------------
// Fixed text
// ---------------------------------------------------------------------

/// Opening of the trace preamble: the include block and the weak sink.
pub const TRACE_PREAMBLE_HEAD: &'static str = r#"#ifdef FSM_TRACE
/* ── W1 R7 host-trace differential hook (compile-time-gated) ─────────
 * This block exists in the generated
 * file text unconditionally but the C preprocessor strips ALL of it
 * unless the consumer compiles with -DFSM_TRACE, so the default
 * `fsm generate` output is byte-identical (append-only-instrumentation
 * discipline). It is a TRACE TAP, not a second interpreter: it emits
 * what THIS generated C did; the shipped fsm_simulator remains the
 * sole semantic oracle the host harness byte-diffs against. */
#include <stdio.h>
#include <string.h>

/* Weak trace sink. The host differential harness links the default
 * (stdout). W2's on-target lane provides a semihosting strong
 * override with ZERO codegen change — that seam is the point. */
#if defined(__GNUC__) || defined(__clang__)
__attribute__((weak))
#endif
void fsm_trace_emit(const char *line);
#if defined(__GNUC__) || defined(__clang__)
__attribute__((weak))
void fsm_trace_emit(const char *line) {
    fputs(line, stdout);
}
#endif

/* StateId enum → IR-id string (the StepRecord wire id form). */
"#;

/// The machine-agnostic comma-list helpers of the trace preamble.
pub const TRACE_CSV_HELPERS: &'static str = r#"static void fsm_trace_csv_append(char *buf, size_t cap, const char *item) {
    size_t l = strlen(buf);
    if (l > 0 && l + 1 < cap) { buf[l++] = ','; buf[l] = '\0'; }
    while (*item && l + 1 < cap) { buf[l++] = *item++; }
    buf[l] = '\0';
}

static void fsm_trace_emit_sorted_csv(char *line, size_t cap, size_t *len, const char *csv) {
    /* tokenise on ',' into a local copy (csv is small — id
     * lists per step are tiny), insertion-sort, re-emit. */
    char tmp[256];
    const char *toks[32];
    int nt = 0;
    size_t i = 0, j = 0;
    if (csv[0] == '\0') return;
    while (csv[i] && j + 1 < sizeof(tmp)) { tmp[j++] = csv[i++]; }
    tmp[j] = '\0';
    {
        int started = 0;
        size_t k;
        for (k = 0; k < j; k++) {
            if (!started) { if (nt < 32) toks[nt++] = &tmp[k]; started = 1; }
            if (tmp[k] == ',') { tmp[k] = '\0'; started = 0; }
        }
    }
    {
        int a, b;
        for (a = 1; a < nt; a++) {
            const char *key = toks[a];
            b = a;
            while (b > 0 && strcmp(toks[b - 1], key) > 0) { toks[b] = toks[b - 1]; b--; }
            toks[b] = key;
        }
    }
    {
        int a;
        for (a = 0; a < nt; a++) {
            const char *p = toks[a];
            if (a > 0 && *len < cap) line[(*len)++] = ',';
            while (*p && *len < cap) line[(*len)++] = *p++;
        }
    }
}

/* Append the C runtime's own _active[] config (mapped to IR ids,
 * sorted) to `buf`. Sorting makes the projection deterministic:
 * _active[] slot order is NOT the simulator's active_states push
 * order, so BOTH sides sort (the canonical projection). This reads
 * state the C already tracked — it derives nothing. The active
 * array + count are PARAMETERS (the caller passes m->_active /
 * m->_active_count) so this single definition is correct from
 * every call site. */
"#;

/// The sorting tail of the configuration appender.
pub const TRACE_CONFIG_TAIL: &'static str = r#"    }
    /* insertion sort by strcmp — n is tiny (region count) */
    {
        uint8_t a, b;
        for (a = 1; a < n; a++) {
            const char *key = ids[a];
            b = a;
            while (b > 0 && strcmp(ids[b - 1], key) > 0) {
                ids[b] = ids[b - 1];
                b--;
            }
            ids[b] = key;
        }
    }
    for (i = 0; i < n; i++) {
        if (i > 0 && *len < cap) buf[(*len)++] = ',';
        {
            const char *p = ids[i];
            while (*p && *len < cap) buf[(*len)++] = *p++;
        }
    }
}

/* Build + emit ONE canonical projection line. Every argument is a
 * value the generated C already observed (event it processed, the
 * transition IT fired, its own config). Pure formatting. */
"#;

/// The parameter list and buffer set-up of the line builder.
pub const TRACE_STEP_PARAMS: &'static str = r#"        const char *kind, const char *evt,
        const char *tr, const char *src, const char *dst,
        const char *cfg_before,
        const char *ent, const char *ext) {
    char buf[1024];
    size_t len = 0;
    const size_t cap = sizeof(buf) - 2;
"#;

/// The scratch fields the trace hook adds to the machine struct.
pub const TRACE_STRUCT_FIELDS: &'static str = r#"#ifdef FSM_TRACE
    /* W1 trace-hook scratch (compile-time-gated). Holds the
     * transition THIS C fired this step + the config-before
     * snapshot. Set by the dispatch body, read by the step
     * emitter. Zero-width when FSM_TRACE is undefined. */
    const char *_trace_tr;
    const char *_trace_src;
    const char *_trace_dst;
    char _trace_ent[256];
    char _trace_ext[256];
    char _trace_cfg_before[256];
    bool _trace_redispatch;
    bool _trace_is_redispatch;
#endif /* FSM_TRACE */
"#;

/// The `#ifdef FSM_TRACE` scratch fields of the machine struct.
pub fn emit_trace_struct_fields() -> (r: String)
    ensures
        r@ == TRACE_STRUCT_FIELDS@,
{
    TRACE_STRUCT_FIELDS.to_owned()
}

// ---------------------------------------------------------------------
// The preamble
// ---------------------------------------------------------------------

/// One row of the state-id to IR-id table: the root sentinel maps to the
/// empty string.
pub open spec fn spec_ir_row(i: nat, r: RecordView) -> Seq<char> {
    "    ["@ + spec_decimal(i) + "] = "@ + spec_c_string_literal(
        if r.kind == StateRecordKind::Root { Seq::empty() } else { r.ir_id },
    ) + ", /* "@ + r.dsl_name + " */\n"@
}

/// The rows of the state-id to IR-id table, in index order.
pub open spec fn spec_ir_rows(rs: Seq<RecordView>) -> Seq<char>
    decreases rs.len(),
{
    if rs.len() == 0 {
        Seq::empty()
    } else {
        spec_ir_rows(rs.drop_last()) + spec_ir_row((rs.len() - 1) as nat, rs.last())
    }
}

/// A line `<m>_TS(); <m>_TF("<key>"); <m>_TF(<arg>);` of the line builder.
pub open spec fn spec_tf_line(m: Seq<char>, key: Seq<char>, arg: Seq<char>) -> Seq<char> {
    "    "@ + m + "_TS(); "@ + m + "_TF(\""@ + key + "\"); "@ + m + "_TF("@ + arg + ");\n"@
}

/// A line `<m>_TS(); <m>_TF("<key>");` of the line builder.
pub open spec fn spec_ts_line(m: Seq<char>, key: Seq<char>) -> Seq<char> {
    "    "@ + m + "_TS(); "@ + m + "_TF(\""@ + key + "\");\n"@
}

/// The trace preamble of a translation unit, for type prefix `p`, macro
/// prefix `m` and the index records `rs`: the weak sink, the state-id to
/// IR-id table, the comma-list helpers, the configuration appender and the
/// line builder.
pub open spec fn spec_trace_preamble(p: Seq<char>, m: Seq<char>, rs: Seq<RecordView>) -> Seq<char> {
    TRACE_PREAMBLE_HEAD@
    + "static const char *const "@ + p + "_trace_ir_id["@ + m + "_STATE__COUNT] = {\n"@
    + spec_ir_rows(rs) + "};\n\n"@
    + TRACE_CSV_HELPERS@
    + "static void "@ + p + "_trace_append_config(const "@ + p
    + "_StateId_t *active, uint8_t active_count, char *buf, size_t cap, size_t *len) {\n"@
    + "    const char *ids["@ + m + "_MAX_PARALLEL_REGIONS];\n    uint8_t n = 0;\n    uint8_t i;\n"@
    + "    for (i = 0; i < active_count && i < "@ + m + "_MAX_PARALLEL_REGIONS; i++) {\n"@
    + "        ids[n++] = "@ + p + "_trace_ir_id[active[i]];\n"@
    + TRACE_CONFIG_TAIL@
    + "static void "@ + p + "_trace_step(\n        const "@ + p + "_StateId_t *active, uint8_t active_count,\n"@
    + TRACE_STEP_PARAMS@
    + "    #define "@ + m + "_TF(s) do { const char *q=(s); while(*q && len<cap) buf[len++]=*q++; } while(0)\n"@
    + "    #define "@ + m + "_TS() do { if (len<cap) buf[len++]=(char)"@ + spec_decimal(FIELD_SEP as nat) + "; } while(0)\n"@
    + "    "@ + m + "_TF(\"STEP\");\n"@
    + spec_tf_line(m, "kind="@, "kind"@)
    + spec_tf_line(m, "evt="@, "evt"@)
    + spec_tf_line(m, "tr="@, "tr"@)
    + spec_tf_line(m, "src="@, "src"@)
    + spec_tf_line(m, "dst="@, "dst"@)
    + spec_tf_line(m, "cfgB="@, "cfg_before"@)
    + spec_ts_line(m, "cfgA="@)
    + "    "@ + p + "_trace_append_config(active, active_count, buf, cap, &len);\n"@
    + spec_ts_line(m, "ent="@)
    + "    fsm_trace_emit_sorted_csv(buf, cap, &len, ent);\n"@
    + spec_ts_line(m, "ext="@)
    + "    fsm_trace_emit_sorted_csv(buf, cap, &len, ext);\n    buf[len++] = '\\n';\n    buf[len] = '\\0';\n    fsm_trace_emit(buf);\n"@
    + "    #undef "@ + m + "_TF\n    #undef "@ + m + "_TS\n}\n#endif /* FSM_TRACE */\n"@
}

fn push_tf_line(s: &mut String, m: &str, key: &str, arg: &str)
    ensures
        final(s)@ == old(s)@ + spec_tf_line(m@, key@, arg@),
{
    let ghost s0 = s@;
    s.append("    "); s.append(m); s.append("_TS(); "); s.append(m); s.append("_TF(\"");
    s.append(key); s.append("\"); "); s.append(m); s.append("_TF("); s.append(arg); s.append(");\n");
    assert(s@ =~= s0 + spec_tf_line(m@, key@, arg@));
}

fn push_ts_line(s: &mut String, m: &str, key: &str)
    ensures
        final(s)@ == old(s)@ + spec_ts_line(m@, key@),
{
    let ghost s0 = s@;
    s.append("    "); s.append(m); s.append("_TS(); "); s.append(m); s.append("_TF(\"");
    s.append(key); s.append("\");\n");
    assert(s@ =~= s0 + spec_ts_line(m@, key@));
}

/// The rows of the state-id to IR-id table of `recs`.
fn ir_rows(recs: &Vec<StateRecord>) -> (r: String)
    requires
        recs.len() <= u64::MAX,
    ensures
        r@ == spec_ir_rows(records_view(recs@)),
{
    let mut s = String::new();
    let mut i: usize = 0;
    while i < recs.len()
        invariant
            i <= recs.len(),
            recs.len() <= u64::MAX,
            s@ == spec_ir_rows(records_view(recs@).take(i as int)),
        decreases recs.len() - i,
    {
        let r = &recs[i];
        let ghost s0 = s@;
        s.append("    [");
        push_decimal(&mut s, i as u64);
        s.append("] = ");
        let lit = if r.kind == StateRecordKind::Root { c_string_literal("") } else { c_string_literal(r.ir_id.as_str()) };
        proof {
            reveal_strlit("");
        }
        s.append(lit.as_str());
        s.append(", /* ");
        s.append(r.dsl_name.as_str());
        s.append(" */\n");
        let ghost rv = records_view(recs@);
        assert(rv.take(i + 1).drop_last() =~= rv.take(i as int));
        assert(rv[i as int] == recs@[i as int]@);
        assert(s@ =~= s0 + spec_ir_row(i as nat, rv[i as int]));
        i += 1;
    }
    assert(records_view(recs@).take(i as int) =~= records_view(recs@));
    s
}

/// The `#ifdef FSM_TRACE` preamble of the translation unit: the weak
/// `fsm_trace_emit` sink, the state-id to IR-id table, the comma-list
/// helpers, the configuration appender and the line builder.
pub fn emit_trace_preamble(ctx: &MachineEmitCtx<'_>) -> (r: String)
    requires
        ctx.index.records.len() <= u64::MAX,
    ensures
        r@ == spec_trace_preamble(ctx.machine.name@, spec_c_ident(ctx.machine.name@), ctx.index@),
{
    let p = ctx.type_prefix();
    let mstr = ctx.macro_prefix();
    let m = mstr.as_str();
    let rows = ir_rows(&ctx.index.records);
    let mut s = TRACE_PREAMBLE_HEAD.to_owned();
    s.append("static const char *const "); s.append(p); s.append("_trace_ir_id["); s.append(m);
    s.append("_STATE__COUNT] = {\n");
    s.append(rows.as_str()); s.append("};\n\n");
    s.append(TRACE_CSV_HELPERS);
    s.append("static void "); s.append(p); s.append("_trace_append_config(const "); s.append(p);
    s.append("_StateId_t *active, uint8_t active_count, char *buf, size_t cap, size_t *len) {\n");
    s.append("    const char *ids["); s.append(m);
    s.append("_MAX_PARALLEL_REGIONS];\n    uint8_t n = 0;\n    uint8_t i;\n");
    s.append("    for (i = 0; i < active_count && i < "); s.append(m); s.append("_MAX_PARALLEL_REGIONS; i++) {\n");
    s.append("        ids[n++] = "); s.append(p); s.append("_trace_ir_id[active[i]];\n");
    s.append(TRACE_CONFIG_TAIL);
    s.append("static void "); s.append(p); s.append("_trace_step(\n        const "); s.append(p);
    s.append("_StateId_t *active, uint8_t active_count,\n");
    s.append(TRACE_STEP_PARAMS);
    s.append("    #define "); s.append(m);
    s.append("_TF(s) do { const char *q=(s); while(*q && len<cap) buf[len++]=*q++; } while(0)\n");
    s.append("    #define "); s.append(m); s.append("_TS() do { if (len<cap) buf[len++]=(char)");
    let sep: u32 = FIELD_SEP as u32;
    push_decimal(&mut s, sep as u64);
    s.append("; } while(0)\n");
    s.append("    "); s.append(m); s.append("_TF(\"STEP\");\n");
    push_tf_line(&mut s, m, "kind=", "kind");
    push_tf_line(&mut s, m, "evt=", "evt");
    push_tf_line(&mut s, m, "tr=", "tr");
    push_tf_line(&mut s, m, "src=", "src");
    push_tf_line(&mut s, m, "dst=", "dst");
    push_tf_line(&mut s, m, "cfgB=", "cfg_before");
    push_ts_line(&mut s, m, "cfgA=");
    s.append("    "); s.append(p); s.append("_trace_append_config(active, active_count, buf, cap, &len);\n");
    push_ts_line(&mut s, m, "ent=");
    s.append("    fsm_trace_emit_sorted_csv(buf, cap, &len, ent);\n");
    push_ts_line(&mut s, m, "ext=");
    s.append("    fsm_trace_emit_sorted_csv(buf, cap, &len, ext);\n    buf[len++] = '\\n';\n    buf[len] = '\\0';\n    fsm_trace_emit(buf);\n");
    s.append("    #undef "); s.append(m); s.append("_TF\n    #undef "); s.append(m); s.append("_TS\n}\n#endif /* FSM_TRACE */\n");
    s
}

// ---------------------------------------------------------------------
// Per-step snippets
// ---------------------------------------------------------------------

/// The step-begin snippet at indentation `ind`: resets the fired-transition
/// literals and the entered/exited lists and snapshots the configuration.
pub open spec fn spec_trace_step_begin(p: Seq<char>, ind: Seq<char>) -> Seq<char> {
    ind + "#ifdef FSM_TRACE\n"@
    + ind + "m->_trace_tr = \"-\"; m->_trace_src = \"-\"; m->_trace_dst = \"-\";\n"@
    + ind + "m->_trace_ent[0] = '\\0'; m->_trace_ext[0] = '\\0';\n"@
    + ind + "m->_trace_is_redispatch = m->_trace_redispatch;\n"@
    + ind + "m->_trace_redispatch = false;\n"@
    + ind + "{\n"@ + ind + "    size_t _tl = 0;\n"@
    + ind + "    "@ + p + "_trace_append_config(m->_active, m->_active_count, m->_trace_cfg_before, sizeof(m->_trace_cfg_before) - 1, &_tl);\n"@
    + ind + "    m->_trace_cfg_before[_tl] = '\\0';\n"@
    + ind + "}\n"@
    + ind + "#endif /* FSM_TRACE */\n"@
}

/// The step-begin snippet of the dispatch function.
pub fn emit_trace_step_begin(ctx: &MachineEmitCtx<'_>, indent: &str) -> (r: String)
    ensures
        r@ == spec_trace_step_begin(ctx.machine.name@, indent@),
{
    let p = ctx.type_prefix();
    let mut s = indent.to_owned();
    s.append("#ifdef FSM_TRACE\n");
    s.append(indent); s.append("m->_trace_tr = \"-\"; m->_trace_src = \"-\"; m->_trace_dst = \"-\";\n");
    s.append(indent); s.append("m->_trace_ent[0] = '\\0'; m->_trace_ext[0] = '\\0';\n");
    s.append(indent); s.append("m->_trace_is_redispatch = m->_trace_redispatch;\n");
    s.append(indent); s.append("m->_trace_redispatch = false;\n");
    s.append(indent); s.append("{\n"); s.append(indent); s.append("    size_t _tl = 0;\n");
    s.append(indent); s.append("    "); s.append(p);
    s.append("_trace_append_config(m->_active, m->_active_count, m->_trace_cfg_before, sizeof(m->_trace_cfg_before) - 1, &_tl);\n");
    s.append(indent); s.append("    m->_trace_cfg_before[_tl] = '\\0';\n");
    s.append(indent); s.append("}\n");
    s.append(indent); s.append("#endif /* FSM_TRACE */\n");
    s
}

/// Appends of each id in `ids` to the trace list `list` (`ent` or `ext`).
pub open spec fn spec_csv_appends(ind: Seq<char>, list: Seq<char>, ids: Seq<Seq<char>>) -> Seq<char>
    decreases ids.len(),
{
    if ids.len() == 0 {
        Seq::empty()
    } else {
        spec_csv_appends(ind, list, ids.drop_last()) + ind + "fsm_trace_csv_append(m->_trace_"@ + list
            + ", sizeof(m->_trace_"@ + list + "), "@ + spec_c_string_literal(ids.last()) + ");\n"@
    }
}

fn push_csv_appends(s: &mut String, ind: &str, list: &str, ids: &[String])
    ensures
        final(s)@ == old(s)@ + spec_csv_appends(ind@, list@, strings_view(ids@)),
{
    let ghost s0 = s@;
    let mut i: usize = 0;
    while i < ids.len()
        invariant
            i <= ids.len(),
            s@ == s0 + spec_csv_appends(ind@, list@, strings_view(ids@).take(i as int)),
        decreases ids.len() - i,
    {
        let ghost s1 = s@;
        let lit = c_string_literal(ids[i].as_str());
        s.append(ind); s.append("fsm_trace_csv_append(m->_trace_"); s.append(list);
        s.append(", sizeof(m->_trace_"); s.append(list); s.append("), "); s.append(lit.as_str());
        s.append(");\n");
        let ghost iv = strings_view(ids@);
        assert(iv.take(i + 1).drop_last() =~= iv.take(i as int));
        assert(iv[i as int] == ids@[i as int]@);
        assert(s@ =~= s0 + spec_csv_appends(ind@, list@, iv.take(i + 1)));
        i += 1;
    }
    assert(strings_view(ids@).take(i as int) =~= strings_view(ids@));
}

/// The record of one fired transition: its stable id, source and target,
/// then the entered and exited IR ids appended to the step's lists.
pub open spec fn spec_trace_record_transition(
    t: TransitionObject,
    entered: Seq<Seq<char>>,
    exited: Seq<Seq<char>>,
    ind: Seq<char>,
) -> Seq<char> {
    ind + "#ifdef FSM_TRACE\n"@
    + ind + "m->_trace_tr = "@ + spec_c_string_literal(t.stable_id@) + ";\n"@
    + ind + "m->_trace_src = "@ + spec_c_string_literal(t.source@) + ";\n"@
    + ind + "m->_trace_dst = "@ + spec_c_string_literal(t.target@) + ";\n"@
    + spec_csv_appends(ind, "ent"@, entered)
    + spec_csv_appends(ind, "ext"@, exited)
    + ind + "#endif /* FSM_TRACE */\n"@
}

/// The trace record of a fired transition `t` with the IR ids it entered
/// and exited.
pub fn emit_trace_record_transition(
    t: &TransitionObject,
    entered_ir: &[String],
    exited_ir: &[String],
    indent: &str,
) -> (r: String)
    ensures
        r@ == spec_trace_record_transition(*t, strings_view(entered_ir@), strings_view(exited_ir@), indent@),
{
    let mut s = indent.to_owned();
    s.append("#ifdef FSM_TRACE\n");
    let tr = c_string_literal(t.stable_id.as_str());
    let src = c_string_literal(t.source.as_str());
    let dst = c_string_literal(t.target.as_str());
    s.append(indent); s.append("m->_trace_tr = "); s.append(tr.as_str()); s.append(";\n");
    s.append(indent); s.append("m->_trace_src = "); s.append(src.as_str()); s.append(";\n");
    s.append(indent); s.append("m->_trace_dst = "); s.append(dst.as_str()); s.append(";\n");
    push_csv_appends(&mut s, indent, "ent", entered_ir);
    push_csv_appends(&mut s, indent, "ext", exited_ir);
    s.append(indent); s.append("#endif /* FSM_TRACE */\n");
    s
}

/// The record of a step whose event was deferred.
pub open spec fn spec_trace_deferred_emit(p: Seq<char>, ind: Seq<char>) -> Seq<char> {
    ind + "#ifdef FSM_TRACE\n"@
    + ind + p + "_trace_step(m->_active, m->_active_count, \"event_deferred\",\n"@
    + ind + "    "@ + p + "_trace_event_name(ev->id), \"-\", \"-\", \"-\",\n"@
    + ind + "    m->_trace_cfg_before, \"\", \"\");\n"@
    + ind + "#endif /* FSM_TRACE */\n"@
}

/// The trace line of a step whose event was deferred.
pub fn emit_trace_deferred_emit(ctx: &MachineEmitCtx<'_>, indent: &str) -> (r: String)
    ensures
        r@ == spec_trace_deferred_emit(ctx.machine.name@, indent@),
{
    let p = ctx.type_prefix();
    let mut s = indent.to_owned();
    s.append("#ifdef FSM_TRACE\n");
    s.append(indent); s.append(p); s.append("_trace_step(m->_active, m->_active_count, \"event_deferred\",\n");
    s.append(indent); s.append("    "); s.append(p); s.append("_trace_event_name(ev->id), \"-\", \"-\", \"-\",\n");
    s.append(indent); s.append("    m->_trace_cfg_before, \"\", \"\");\n");
    s.append(indent); s.append("#endif /* FSM_TRACE */\n");
    s
}

/// The `case` lines of the event-name function, one per declared event.
pub open spec fn spec_event_name_cases(m: Seq<char>, evs: Seq<crate::ir::EventObject>) -> Seq<char>
    decreases evs.len(),
{
    if evs.len() == 0 {
        Seq::empty()
    } else {
        spec_event_name_cases(m, evs.drop_last()) + "    case "@ + m + "_EVENT_"@ + spec_c_ident(evs.last().name@)
            + ": return "@ + spec_c_string_literal(evs.last().name@) + ";\n"@
    }
}

/// The event-name function of machine type prefix `p` and macro prefix `m`.
pub open spec fn spec_trace_event_name_fn(p: Seq<char>, m: Seq<char>, evs: Seq<crate::ir::EventObject>) -> Seq<char> {
    "#ifdef FSM_TRACE\nstatic const char *"@ + p + "_trace_event_name("@ + p + "_EventId_t id) {\n    switch (id) {\n"@
    + spec_event_name_cases(m, evs)
    + "    default: return \"?\";\n    }\n}\n#endif /* FSM_TRACE */\n"@
}

/// `<M>_trace_event_name`: maps an event id to the event's DSL name.
pub fn emit_trace_event_name_fn(ctx: &MachineEmitCtx<'_>) -> (r: String)
    ensures
        r@ == spec_trace_event_name_fn(ctx.machine.name@, spec_c_ident(ctx.machine.name@), ctx.machine.events@),
{
    let p = ctx.type_prefix();
    let mstr = ctx.macro_prefix();
    let m = mstr.as_str();
    let evs = &ctx.machine.events;
    let mut cases = String::new();
    let mut i: usize = 0;
    while i < evs.len()
        invariant
            i <= evs.len(),
            cases@ == spec_event_name_cases(m@, evs@.take(i as int)),
        decreases evs.len() - i,
    {
        let ghost c0 = cases@;
        let ec = crate::state_index::c_ident(evs[i].name.as_str());
        let lit = c_string_literal(evs[i].name.as_str());
        cases.append("    case "); cases.append(m); cases.append("_EVENT_"); cases.append(ec.as_str());
        cases.append(": return "); cases.append(lit.as_str()); cases.append(";\n");
        assert(evs@.take(i + 1).drop_last() =~= evs@.take(i as int));
        assert(cases@ =~= spec_event_name_cases(m@, evs@.take(i + 1)));
        i += 1;
    }
    assert(evs@.take(i as int) =~= evs@);
    let mut s = "#ifdef FSM_TRACE\nstatic const char *".to_owned();
    s.append(p); s.append("_trace_event_name("); s.append(p); s.append("_EventId_t id) {\n    switch (id) {\n");
    s.append(cases.as_str());
    s.append("    default: return \"?\";\n    }\n}\n#endif /* FSM_TRACE */\n");
    s
}

/// The record of the initial step: the sorted entered IR ids.
pub open spec fn spec_trace_init_emit(p: Seq<char>, entered: Seq<String>, ind: Seq<char>) -> Seq<char> {
    ind + "#ifdef FSM_TRACE\n"@
    + ind + p + "_trace_step(m->_active, m->_active_count, \"init\", \"-\",\n"@
    + ind + "    \"-\", \"-\", \"-\",\n"@
    + ind + "    \"\",\n"@
    + ind + "    "@ + spec_c_string_literal(spec_join_commas(spec_sorted_strings(entered))) + ", \"\");\n"@
    + ind + "#endif /* FSM_TRACE */\n"@
}

/// The trace line of the initial step, listing the entered IR ids sorted.
pub fn emit_trace_init_emit(ctx: &MachineEmitCtx<'_>, entered_ir: &[String], indent: &str) -> (r: String)
    ensures
        r@ == spec_trace_init_emit(ctx.machine.name@, entered_ir@, indent@),
{
    let p = ctx.type_prefix();
    let joined = sorted_comma_join(entered_ir);
    let lit = c_string_literal(joined.as_str());
    let mut s = indent.to_owned();
    s.append("#ifdef FSM_TRACE\n");
    s.append(indent); s.append(p); s.append("_trace_step(m->_active, m->_active_count, \"init\", \"-\",\n");
    s.append(indent); s.append("    \"-\", \"-\", \"-\",\n");
    s.append(indent); s.append("    \"\",\n");
    s.append(indent); s.append("    "); s.append(lit.as_str()); s.append(", \"\");\n");
    s.append(indent); s.append("#endif /* FSM_TRACE */\n");
    s
}


/// One `else if` arm of the step record's kind selection: a timer event
/// is recorded as `timer_fired` with the timer's id.
pub open spec fn spec_timer_trace_case(m: Seq<char>, ind: Seq<char>, t: TimerView) -> Seq<char> {
    ind + "    else if (ev->id == "@ + m + "_EVENT_"@ + t.event_suffix
        + ") { _k = \"timer_fired\"; _e = \"__timer__:"@ + t.timer_id + "\"; }\n"@
}

pub open spec fn spec_timer_trace_cases(m: Seq<char>, ind: Seq<char>, ts: Seq<TimerView>) -> Seq<char>
    decreases ts.len(),
{
    if ts.len() == 0 {
        Seq::empty()
    } else {
        spec_timer_trace_cases(m, ind, ts.drop_last()) + spec_timer_trace_case(m, ind, ts.last())
    }
}

fn push_timer_trace_cases(s: &mut String, m: &str, ind: &str, ts: &Vec<TimerEntry>)
    ensures
        final(s)@ == old(s)@ + spec_timer_trace_cases(m@, ind@, timers_view(ts@)),
{
    let ghost s0 = s@;
    let ghost tv = timers_view(ts@);
    let mut i: usize = 0;
    assert(s0 + spec_timer_trace_cases(m@, ind@, tv.take(0)) =~= s0);
    while i < ts.len()
        invariant
            tv == timers_view(ts@),
            i <= ts.len(),
            s@ == s0 + spec_timer_trace_cases(m@, ind@, tv.take(i as int)),
        decreases ts.len() - i,
    {
        assert(tv.take(i + 1).drop_last() =~= tv.take(i as int));
        assert(tv.take(i + 1).last() == ts@[i as int]@);
        let ghost s1 = s@;
        s.append(ind); s.append("    else if (ev->id == "); s.append(m); s.append("_EVENT_");
        s.append(ts[i].event_suffix.as_str());
        s.append(") { _k = \"timer_fired\"; _e = \"__timer__:"); s.append(ts[i].timer_id.as_str());
        s.append("\"; }\n");
        assert(s@ =~= s1 + spec_timer_trace_case(m@, ind@, ts@[i as int]@));
        assert(s@ =~= s0 + spec_timer_trace_cases(m@, ind@, tv.take(i + 1)));
        i += 1;
    }
    assert(tv.take(i as int) =~= tv);
}

/// The step record at the end of a dispatch: the step kind and event name
/// chosen from the event id (completion, a timer, or an ordinary or
/// re-dispatched event), then the line builder call.
pub open spec fn spec_trace_step_emit(ctx: CtxView, ind: Seq<char>) -> Seq<char> {
    ind
    + "#ifdef FSM_TRACE\n"@
    + ind
    + "{\n"@
    + ind
    + "    const char *_k; const char *_e;\n"@
    + ind
    + "    if (ev->id == "@
    + spec_c_ident(ctx.machine.name@)
    + "_EVENT__COMPLETION) { _k = \"completion\"; _e = \"__completion__\"; }\n"@
    + spec_timer_trace_cases(spec_c_ident(ctx.machine.name@), ind, spec_collect_timers(ctx))
    + ind
    + "    else { _k = m->_trace_is_redispatch ? \"event_redispatched\" : \"dispatched\"; _e = "@
    + ctx.machine.name@
    + "_trace_event_name(ev->id); }\n"@
    + ind
    + "    "@
    + ctx.machine.name@
    + "_trace_step(m->_active, m->_active_count, _k, _e,\n"@
    + ind
    + "        m->_trace_tr, m->_trace_src, m->_trace_dst,\n"@
    + ind
    + "        m->_trace_cfg_before,\n"@
    + ind
    + "        m->_trace_ent, m->_trace_ext);\n"@
    + ind
    + "}\n"@
    + ind
    + "#endif /* FSM_TRACE */\n"@
}

/// The trace record emitted at the end of every dispatch.
pub fn emit_trace_step_emit(ctx: &MachineEmitCtx<'_>, indent: &str) -> (r: String)
    requires
        ctx.index.wf(),
    ensures
        r@ == spec_trace_step_emit(ctx@, indent@),
{
    let p = ctx.type_prefix();
    let mstr = ctx.macro_prefix();
    let m = mstr.as_str();
    let timers = collect_timers(ctx);
    let mut s = indent.to_owned();
    s.append("#ifdef FSM_TRACE\n");
    s.append(indent);
    s.append("{\n");
    s.append(indent);
    s.append("    const char *_k; const char *_e;\n");
    s.append(indent);
    s.append("    if (ev->id == ");
    s.append(m);
    s.append("_EVENT__COMPLETION) { _k = \"completion\"; _e = \"__completion__\"; }\n");
    push_timer_trace_cases(&mut s, m, indent, &timers);
    s.append(indent);
    s.append("    else { _k = m->_trace_is_redispatch ? \"event_redispatched\" : \"dispatched\"; _e = ");
    s.append(p);
    s.append("_trace_event_name(ev->id); }\n");
    s.append(indent);
    s.append("    ");
    s.append(p);
    s.append("_trace_step(m->_active, m->_active_count, _k, _e,\n");
    s.append(indent);
    s.append("        m->_trace_tr, m->_trace_src, m->_trace_dst,\n");
    s.append(indent);
    s.append("        m->_trace_cfg_before,\n");
    s.append(indent);
    s.append("        m->_trace_ent, m->_trace_ext);\n");
    s.append(indent);
    s.append("}\n");
    s.append(indent);
    s.append("#endif /* FSM_TRACE */\n");
    s
}



/// The entered-state record of IR id `id`: appended to the step's `ent`
/// list under `FSM_TRACE`, the block closed by `endif`.
pub open spec fn spec_trace_ent(pad: Seq<char>, id: Seq<char>, endif: Seq<char>) -> Seq<char> {
    pad + "#ifdef FSM_TRACE\n"@ + pad + "fsm_trace_csv_append(m->_trace_ent, sizeof(m->_trace_ent), "@
        + spec_c_string_literal(id) + ");\n"@ + pad + endif
}

/// Appends the entered-state record of `id`.
pub fn push_trace_ent(s: &mut String, pad: &str, id: &str, endif: &str)
    ensures
        final(s)@ == old(s)@ + spec_trace_ent(pad@, id@, endif@),
{
    let lit = c_string_literal(id);
    let mut b = pad.to_owned();
    b.append("#ifdef FSM_TRACE\n");
    b.append(pad);
    b.append("fsm_trace_csv_append(m->_trace_ent, sizeof(m->_trace_ent), ");
    b.append(lit.as_str());
    b.append(");\n");
    b.append(pad);
    b.append(endif);
    s.append(b.as_str());
}

} // verus!
