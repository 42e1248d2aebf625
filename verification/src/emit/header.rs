//! `<Machine>.h`: the public header: state and event enums, payload
//! types, the event tagged union, the user context, the machine struct and
//! the public API.

use vstd::prelude::*;

use crate::expr::{primitive_to_c, spec_primitive_to_c};
use crate::ir::{ContextField, EventObject, Param, Type};
use crate::state_index::{c_ident, spec_c_ident, RecordView};
use crate::text::{push_decimal, spec_contains_str, spec_decimal};

use super::defer::{machine_has_defer, spec_has_defer_states};
use super::license::{header_block, spec_header_block};
use super::trace_hook::TRACE_STRUCT_FIELDS;
use super::source::{collect_timer_names, names_view, spec_timer_names};
use super::timer::{collect_timers, spec_collect_timers, timers_view, TimerView};
use super::{EmittedFile, FileRole, CtxView, MachineEmitCtx};

verus! {

pub open spec fn spec_state_rows(ctx: CtxView, n: int) -> Seq<char>
    decreases n,
{
    if n <= 0 {
        Seq::empty()
    } else {
        spec_state_rows(ctx, n - 1) + "    "@ + spec_c_ident(ctx.machine.name@) + "_STATE_"@ + ctx.index@[n - 1].c_name
            + " = "@ + spec_decimal((n - 1) as nat) + ",\n"@
    }
}

/// The state id enum: one enumerator per index record, then the count.
pub open spec fn spec_state_enum(ctx: CtxView) -> Seq<char> {
    let p = ctx.machine.name@;
    "/* ── State IDs ──────────────────────────────────────────────────────── */\ntypedef enum {\n"@ + spec_state_rows(ctx, ctx.index@.len() as int) + "    "@ + spec_c_ident(p)
        + "_STATE__COUNT\n} "@ + p + "_StateId_t;\n"@
}

fn state_enum(ctx: &MachineEmitCtx<'_>, p: &str, m: &str) -> (r: String)
    requires
        p@ == ctx.machine.name@,
        m@ == spec_c_ident(ctx.machine.name@),
    ensures
        r@ == spec_state_enum(ctx@),
{
    let n = ctx.index.records.len();
    let mut rows = String::new();
    let mut i: usize = 0;
    while i < n
        invariant
            m@ == spec_c_ident(ctx.machine.name@),
            n == ctx.index@.len(),
            i <= n,
            rows@ == spec_state_rows(ctx@, i as int),
        decreases n - i,
    {
        assert(ctx.index@[i as int] == ctx.index.records@[i as int]@);
        let mut b = "    ".to_owned();
        b.append(m);
        b.append("_STATE_");
        b.append(ctx.index.records[i].c_name.as_str());
        b.append(" = ");
        push_decimal(&mut b, i as u64);
        b.append(",\n");
        rows.append(b.as_str());
        i += 1;
    }
    let mut s = "/* ── State IDs ──────────────────────────────────────────────────────── */\ntypedef enum {\n".to_owned();
    s.append(rows.as_str());
    s.append("    ");
    s.append(m);
    s.append("_STATE__COUNT\n} ");
    s.append(p);
    s.append("_StateId_t;\n");
    s
}

pub open spec fn spec_event_rows(m: Seq<char>, evs: Seq<EventObject>) -> Seq<char>
    decreases evs.len(),
{
    if evs.len() == 0 {
        Seq::empty()
    } else {
        spec_event_rows(m, evs.drop_last()) + "    "@ + m + "_EVENT_"@ + spec_c_ident(evs.last().name@) + " = "@
            + spec_decimal((evs.len() - 1) as nat) + ",\n"@
    }
}

pub open spec fn spec_timer_event_rows(m: Seq<char>, ts: Seq<TimerView>) -> Seq<char>
    decreases ts.len(),
{
    if ts.len() == 0 {
        Seq::empty()
    } else {
        spec_timer_event_rows(m, ts.drop_last()) + "    "@ + m + "_EVENT_"@ + ts.last().event_suffix + ",\n"@
    }
}

/// The event id enum: the declared events in order, the completion event,
/// the timers' fired events, then the count.
pub open spec fn spec_event_enum(ctx: CtxView) -> Seq<char> {
    let p = ctx.machine.name@;
    let m = spec_c_ident(p);
    "/* ── Event IDs ──────────────────────────────────────────────────────── */\ntypedef enum {\n"@ + spec_event_rows(m, ctx.machine.events@) + "    "@ + m + "_EVENT__COMPLETION,\n"@
        + spec_timer_event_rows(m, spec_collect_timers(ctx)) + "    "@ + m + "_EVENT__COUNT\n} "@ + p + "_EventId_t;\n"@
}

fn event_enum(ctx: &MachineEmitCtx<'_>, p: &str, m: &str) -> (r: String)
    requires
        ctx.index.wf(),
        p@ == ctx.machine.name@,
        m@ == spec_c_ident(ctx.machine.name@),
    ensures
        r@ == spec_event_enum(ctx@),
{
    let evs = &ctx.machine.events;
    let mut rows = String::new();
    let mut i: usize = 0;
    assert(evs@.take(0) =~= Seq::<EventObject>::empty());
    while i < evs.len()
        invariant
            i <= evs.len(),
            rows@ == spec_event_rows(m@, evs@.take(i as int)),
        decreases evs.len() - i,
    {
        assert(evs@.take(i + 1).drop_last() =~= evs@.take(i as int));
        assert(evs@.take(i + 1).last() == evs@[i as int]);
        let c = c_ident(evs[i].name.as_str());
        let mut b = "    ".to_owned();
        b.append(m);
        b.append("_EVENT_");
        b.append(c.as_str());
        b.append(" = ");
        push_decimal(&mut b, i as u64);
        b.append(",\n");
        rows.append(b.as_str());
        i += 1;
    }
    assert(evs@.take(i as int) =~= evs@);
    let ts = collect_timers(ctx);
    let ghost tv = timers_view(ts@);
    let mut trows = String::new();
    let mut k: usize = 0;
    assert(tv.take(0) =~= Seq::<TimerView>::empty());
    while k < ts.len()
        invariant
            tv == timers_view(ts@),
            k <= ts.len(),
            trows@ == spec_timer_event_rows(m@, tv.take(k as int)),
        decreases ts.len() - k,
    {
        assert(tv.take(k + 1).drop_last() =~= tv.take(k as int));
        assert(tv.take(k + 1).last() == ts@[k as int]@);
        let mut b = "    ".to_owned();
        b.append(m);
        b.append("_EVENT_");
        b.append(ts[k].event_suffix.as_str());
        b.append(",\n");
        trows.append(b.as_str());
        k += 1;
    }
    assert(tv.take(k as int) =~= tv);
    let mut s = "/* ── Event IDs ──────────────────────────────────────────────────────── */\ntypedef enum {\n".to_owned();
    s.append(rows.as_str());
    s.append("    ");
    s.append(m);
    s.append("_EVENT__COMPLETION,\n");
    s.append(trows.as_str());
    s.append("    ");
    s.append(m);
    s.append("_EVENT__COUNT\n} ");
    s.append(p);
    s.append("_EventId_t;\n");
    s
}

/// The C type of a payload parameter: its primitive spelling, `int`
/// otherwise.
pub open spec fn spec_param_type(t: Type) -> Seq<char> {
    match t {
        Type::Primitive { name } => spec_primitive_to_c(name@),
        _ => "int"@,
    }
}

pub open spec fn spec_payload_fields(ps: Seq<Param>) -> Seq<char>
    decreases ps.len(),
{
    if ps.len() == 0 {
        Seq::empty()
    } else {
        spec_payload_fields(ps.drop_last()) + "    "@ + spec_param_type(ps.last().ty) + " "@ + ps.last().name@ + ";\n"@
    }
}

pub open spec fn spec_payload_struct_list(p: Seq<char>, evs: Seq<EventObject>) -> Seq<char>
    decreases evs.len(),
{
    if evs.len() == 0 {
        Seq::empty()
    } else {
        let e = evs.last();
        spec_payload_struct_list(p, evs.drop_last()) + if e.payload@.len() > 0 {
            "typedef struct {\n"@ + spec_payload_fields(e.payload@) + "} "@ + p + "_"@ + spec_c_ident(e.name@) + "Payload_t;\n\n"@
        } else {
            Seq::empty()
        }
    }
}

/// Some event carries a payload.
pub open spec fn spec_any_payload(evs: Seq<EventObject>) -> bool {
    exists|i: int| 0 <= i < evs.len() && (#[trigger] evs[i]).payload@.len() > 0
}

/// The payload structs of the events that carry one (nothing when none
/// does).
pub open spec fn spec_payload_structs(ctx: CtxView) -> Seq<char> {
    if !spec_any_payload(ctx.machine.events@) {
        Seq::empty()
    } else {
        "/* ── Payload types ─────────────────────────────────────────────────── */\n"@ + spec_payload_struct_list(ctx.machine.name@, ctx.machine.events@)
    }
}

fn any_payload(evs: &Vec<EventObject>) -> (r: bool)
    ensures
        r == spec_any_payload(evs@),
{
    let mut i: usize = 0;
    while i < evs.len()
        invariant
            i <= evs.len(),
            forall|k: int| 0 <= k < i ==> (#[trigger] evs@[k]).payload@.len() == 0,
        decreases evs.len() - i,
    {
        if evs[i].payload.len() > 0 {
            return true;
        }
        i += 1;
    }
    false
}

fn payload_structs(ctx: &MachineEmitCtx<'_>, p: &str) -> (r: String)
    requires
        p@ == ctx.machine.name@,
    ensures
        r@ == spec_payload_structs(ctx@),
{
    let evs = &ctx.machine.events;
    if !any_payload(evs) {
        return String::new();
    }
    let mut s = "/* ── Payload types ─────────────────────────────────────────────────── */\n".to_owned();
    let mut list = String::new();
    let mut i: usize = 0;
    assert(evs@.take(0) =~= Seq::<EventObject>::empty());
    while i < evs.len()
        invariant
            i <= evs.len(),
            list@ == spec_payload_struct_list(p@, evs@.take(i as int)),
        decreases evs.len() - i,
    {
        assert(evs@.take(i + 1).drop_last() =~= evs@.take(i as int));
        assert(evs@.take(i + 1).last() == evs@[i as int]);
        let e = &evs[i];
        if e.payload.len() > 0 {
            let mut b = "typedef struct {\n".to_owned();
            let mut f = String::new();
            let mut k: usize = 0;
            assert(e.payload@.take(0) =~= Seq::<Param>::empty());
            while k < e.payload.len()
                invariant
                    k <= e.payload.len(),
                    f@ == spec_payload_fields(e.payload@.take(k as int)),
                decreases e.payload.len() - k,
            {
                assert(e.payload@.take(k + 1).drop_last() =~= e.payload@.take(k as int));
                assert(e.payload@.take(k + 1).last() == e.payload@[k as int]);
                let prm = &e.payload[k];
                let ty: &str = match &prm.ty {
                    Type::Primitive { name } => primitive_to_c(name.as_str()),
                    _ => "int",
                };
                let mut l = "    ".to_owned();
                l.append(ty);
                l.append(" ");
                l.append(prm.name.as_str());
                l.append(";\n");
                f.append(l.as_str());
                k += 1;
            }
            assert(e.payload@.take(k as int) =~= e.payload@);
            b.append(f.as_str());
            b.append("} ");
            b.append(p);
            b.append("_");
            let c = c_ident(e.name.as_str());
            b.append(c.as_str());
            b.append("Payload_t;\n\n");
            list.append(b.as_str());
        }
        i += 1;
    }
    assert(evs@.take(i as int) =~= evs@);
    s.append(list.as_str());
    s
}

pub open spec fn spec_union_members(p: Seq<char>, evs: Seq<EventObject>) -> Seq<char>
    decreases evs.len(),
{
    if evs.len() == 0 {
        Seq::empty()
    } else {
        let e = evs.last();
        spec_union_members(p, evs.drop_last()) + if e.payload@.len() > 0 {
            "        "@ + p + "_"@ + spec_c_ident(e.name@) + "Payload_t "@ + e.name@ + ";\n"@
        } else {
            Seq::empty()
        }
    }
}

/// The event tagged union: the id and one payload member per event that
/// carries one (a placeholder byte when none does).
pub open spec fn spec_event_union(ctx: CtxView) -> Seq<char> {
    let p = ctx.machine.name@;
    "/* ── Event tagged union ────────────────────────────────────────────── */\ntypedef struct {\n    "@ + p + "_EventId_t id;\n    union {\n"@
        + spec_union_members(p, ctx.machine.events@)
        + (if !spec_any_payload(ctx.machine.events@) { "        uint8_t __empty;\n"@ } else { Seq::empty() })
        + "    } __payload;\n} "@ + p + "_Event_t;\n"@
}

fn event_union(ctx: &MachineEmitCtx<'_>, p: &str) -> (r: String)
    requires
        p@ == ctx.machine.name@,
    ensures
        r@ == spec_event_union(ctx@),
{
    let evs = &ctx.machine.events;
    let mut mem = String::new();
    let mut i: usize = 0;
    assert(evs@.take(0) =~= Seq::<EventObject>::empty());
    while i < evs.len()
        invariant
            i <= evs.len(),
            mem@ == spec_union_members(p@, evs@.take(i as int)),
        decreases evs.len() - i,
    {
        assert(evs@.take(i + 1).drop_last() =~= evs@.take(i as int));
        assert(evs@.take(i + 1).last() == evs@[i as int]);
        let e = &evs[i];
        if e.payload.len() > 0 {
            let c = c_ident(e.name.as_str());
            let mut b = "        ".to_owned();
            b.append(p);
            b.append("_");
            b.append(c.as_str());
            b.append("Payload_t ");
            b.append(e.name.as_str());
            b.append(";\n");
            mem.append(b.as_str());
        }
        i += 1;
    }
    assert(evs@.take(i as int) =~= evs@);
    let mut s = "/* ── Event tagged union ────────────────────────────────────────────── */\ntypedef struct {\n    ".to_owned();
    s.append(p);
    s.append("_EventId_t id;\n    union {\n");
    s.append(mem.as_str());
    let mut e = String::new();
    if !any_payload(evs) {
        e.append("        uint8_t __empty;\n");
    }
    s.append(e.as_str());
    s.append("    } __payload;\n} ");
    s.append(p);
    s.append("_Event_t;\n");
    s
}

/// The C element type of an array-typed context field.
pub open spec fn spec_array_elem(t: Type) -> Seq<char> {
    match t {
        Type::Primitive { name } => spec_primitive_to_c(name@),
        _ => "int"@,
    }
}

/// The member declaration of one context field; an array field is declared
/// with its element type and its length.
pub open spec fn spec_context_member(f: ContextField) -> Seq<char> {
    match f.ty {
        Type::Primitive { name } => "    "@ + spec_primitive_to_c(name@) + " "@ + f.name@ + ";\n"@,
        Type::Opaque { c_type } => "    "@ + c_type@ + " "@ + f.name@ + ";\n"@,
        Type::Enum { .. } => "    int "@ + f.name@ + ";\n"@,
        Type::Array { element, size } => "    "@ + spec_array_elem(*element) + " "@ + f.name@ + "["@
            + spec_decimal(size as nat) + "];\n"@,
    }
}

pub open spec fn spec_context_fields(fs: Seq<ContextField>) -> Seq<char>
    decreases fs.len(),
{
    if fs.len() == 0 {
        Seq::empty()
    } else {
        spec_context_fields(fs.drop_last()) + spec_context_member(fs.last())
    }
}

/// The user context struct: one member per context field, in order, or a
/// one-byte placeholder when there is none.
pub open spec fn spec_context_struct(ctx: CtxView) -> Seq<char> {
    let fs = ctx.machine.context.fields@;
    "/* ── User context (declared in DSL `context { ... }`) ──────────────── */\ntypedef struct {\n"@
        + spec_context_fields(fs) + (if fs.len() == 0 { "    uint8_t __empty;\n"@ } else { Seq::empty() })
        + "} "@ + ctx.machine.name@ + "_Context_t;\n"@
}

fn context_member(f: &ContextField) -> (r: String)
    ensures
        r@ == spec_context_member(*f),
{
    match &f.ty {
        Type::Primitive { name } => {
            let mut b = "    ".to_owned();
            b.append(primitive_to_c(name.as_str()));
            b.append(" ");
            b.append(f.name.as_str());
            b.append(";\n");
            b
        },
        Type::Opaque { c_type } => {
            let mut b = "    ".to_owned();
            b.append(c_type.as_str());
            b.append(" ");
            b.append(f.name.as_str());
            b.append(";\n");
            b
        },
        Type::Enum { .. } => {
            let mut b = "    int ".to_owned();
            b.append(f.name.as_str());
            b.append(";\n");
            b
        },
        Type::Array { element, size } => {
            let inner: &str = match &**element {
                Type::Primitive { name } => primitive_to_c(name.as_str()),
                _ => "int",
            };
            let mut b = "    ".to_owned();
            b.append(inner);
            b.append(" ");
            b.append(f.name.as_str());
            b.append("[");
            push_decimal(&mut b, *size as u64);
            b.append("];\n");
            b
        },
    }
}

fn context_struct(ctx: &MachineEmitCtx<'_>, p: &str) -> (r: String)
    requires
        p@ == ctx.machine.name@,
    ensures
        r@ == spec_context_struct(ctx@),
{
    let fs = &ctx.machine.context.fields;
    let mut body = String::new();
    let mut i: usize = 0;
    assert(fs@.take(0) =~= Seq::<ContextField>::empty());
    while i < fs.len()
        invariant
            fs@ == ctx.machine.context.fields@,
            i <= fs.len(),
            body@ == spec_context_fields(fs@.take(i as int)),
        decreases fs.len() - i,
    {
        assert(fs@.take(i + 1).drop_last() =~= fs@.take(i as int));
        assert(fs@.take(i + 1).last() == fs@[i as int]);
        let m = context_member(&fs[i]);
        body.append(m.as_str());
        i += 1;
    }
    assert(fs@.take(i as int) =~= fs@);
    let mut s = "/* ── User context (declared in DSL `context { ... }`) ──────────────── */\ntypedef struct {\n".to_owned();
    s.append(body.as_str());
    let mut e = String::new();
    if fs.len() == 0 {
        e.append("    uint8_t __empty;\n");
    }
    s.append(e.as_str());
    s.append("} ");
    s.append(p);
    s.append("_Context_t;\n");
    s
}

/// The public API prototypes.
pub open spec fn spec_api_prototypes(p: Seq<char>) -> Seq<char> {
    "/* ── Public API ────────────────────────────────────────────────────── */\nvoid  "@
    + p
    + "_init          ("@
    + p
    + "_t *m);\nvoid  "@
    + p
    + "_dispatch      ("@
    + p
    + "_t *m, const "@
    + p
    + "_Event_t *ev);\nvoid  "@
    + p
    + "_post          ("@
    + p
    + "_t *m, const "@
    + p
    + "_Event_t *ev);\nbool  "@
    + p
    + "_dequeue       ("@
    + p
    + "_t *m, "@
    + p
    + "_Event_t *out);\nvoid  "@
    + p
    + "_advance_clock ("@
    + p
    + "_t *m, uint32_t elapsed_ms);\n"@
    + p
    + "_StateId_t "@
    + p
    + "_current_state(const "@
    + p
    + "_t *m);\n"@
}

fn api_prototypes(p: &str) -> (r: String)
    ensures
        r@ == spec_api_prototypes(p@),
{
    let mut s = "/* ── Public API ────────────────────────────────────────────────────── */\nvoid  ".to_owned();
    s.append(p);
    s.append("_init          (");
    s.append(p);
    s.append("_t *m);\nvoid  ");
    s.append(p);
    s.append("_dispatch      (");
    s.append(p);
    s.append("_t *m, const ");
    s.append(p);
    s.append("_Event_t *ev);\nvoid  ");
    s.append(p);
    s.append("_post          (");
    s.append(p);
    s.append("_t *m, const ");
    s.append(p);
    s.append("_Event_t *ev);\nbool  ");
    s.append(p);
    s.append("_dequeue       (");
    s.append(p);
    s.append("_t *m, ");
    s.append(p);
    s.append("_Event_t *out);\nvoid  ");
    s.append(p);
    s.append("_advance_clock (");
    s.append(p);
    s.append("_t *m, uint32_t elapsed_ms);\n");
    s.append(p);
    s.append("_StateId_t ");
    s.append(p);
    s.append("_current_state(const ");
    s.append(p);
    s.append("_t *m);\n");
    s
}


/// How many of the first `n` records carry a history pseudostate.
pub open spec fn spec_hist_count(recs: Seq<RecordView>, n: int) -> nat
    decreases n,
{
    if n <= 0 {
        0
    } else {
        spec_hist_count(recs, n - 1) + if recs[n - 1].history_pseudo is Some { 1nat } else { 0nat }
    }
}

/// One `_history_<state>` slot field per record with a history
/// pseudostate, numbered in index order.
pub open spec fn spec_hist_fields(p: Seq<char>, recs: Seq<RecordView>, n: int) -> Seq<char>
    decreases n,
{
    if n <= 0 {
        Seq::empty()
    } else {
        spec_hist_fields(p, recs, n - 1) + if recs[n - 1].history_pseudo is Some {
            "    "@ + p + "_StateId_t _history_"@ + recs[n - 1].c_name + "; /* slot "@
                + spec_decimal(spec_hist_count(recs, n - 1)) + " */\n"@
        } else {
            Seq::empty()
        }
    }
}

/// One countdown field per timer name.
pub open spec fn spec_timer_fields(names: Seq<Seq<char>>) -> Seq<char>
    decreases names.len(),
{
    if names.len() == 0 {
        Seq::empty()
    } else {
        spec_timer_fields(names.drop_last()) + "    uint32_t _timer_"@ + names.last() + "_remaining_ms;\n"@
    }
}

proof fn lemma_contains_in_middle(a: Seq<char>, b: Seq<char>, c: Seq<char>, pat: Seq<char>)
    requires
        spec_contains_str(b, pat),
    ensures
        spec_contains_str(a + b + c, pat),
{
    let i = choose|i: int| 0 <= i && i + pat.len() <= b.len() && #[trigger] b.subrange(i, i + pat.len()) == pat;
    let j = a.len() + i;
    assert((a + b + c).subrange(j, j + pat.len()) =~= b.subrange(i, i + pat.len()));
}

proof fn lemma_timer_fields_contain(names: Seq<Seq<char>>, k: int)
    requires
        0 <= k < names.len(),
    ensures
        spec_contains_str(spec_timer_fields(names), "    uint32_t _timer_"@ + names[k] + "_remaining_ms;\n"@),
    decreases names.len(),
{
    let line = "    uint32_t _timer_"@ + names[k] + "_remaining_ms;\n"@;
    let rest = names.drop_last();
    if k < names.len() - 1 {
        lemma_timer_fields_contain(rest, k);
        assert(rest[k] == names[k]);
        let tail = "    uint32_t _timer_"@ + names.last() + "_remaining_ms;\n"@;
        lemma_contains_in_middle(Seq::empty(), spec_timer_fields(rest), tail, line);
        assert(Seq::<char>::empty() + spec_timer_fields(rest) + tail =~= spec_timer_fields(names));
    } else {
        let f = spec_timer_fields(names);
        let pre = spec_timer_fields(rest);
        assert(f =~= pre + line);
        assert(f.subrange(pre.len() as int, (pre.len() + line.len()) as int) =~= line);
    }
}

/// For every timer the source emitters count down, the machine struct
/// declares its countdown field `_timer_<stem>_remaining_ms` under the
/// same stem, so header and source name the same fields.
pub proof fn law_struct_declares_source_timers(ctx: CtxView, k: int)
    requires
        0 <= k < spec_collect_timers(ctx).len(),
    ensures
        spec_contains_str(
            spec_machine_struct(ctx),
            "    uint32_t _timer_"@ + spec_collect_timers(ctx)[k].field_name + "_remaining_ms;\n"@,
        ),
{
    let names = spec_timer_names(ctx);
    assert(names[k] == spec_collect_timers(ctx)[k].field_name);
    lemma_timer_fields_contain(names, k);
    let p = ctx.machine.name@;
    let m = spec_c_ident(p);
    let a = "/* ── Machine struct — user allocates this in stack/BSS/static ──────── */\ntypedef struct {\n"@
        + "    "@ + p + "_Context_t context;\n"@
        + "    "@ + p + "_StateId_t _active["@ + m + "_MAX_PARALLEL_REGIONS];\n"@
        + "    uint8_t _active_count;\n"@
        + spec_hist_fields(p, ctx.index@, ctx.index@.len() as int);
    let c = "    "@ + p + "_Event_t _queue["@ + m + "_QUEUE_CAPACITY];\n"@
        + "    uint8_t _queue_head;\n    uint8_t _queue_tail;\n    uint8_t _queue_count;\n"@
        + "    uint8_t _completion_depth; /* per-instance watchdog */\n"@
        + spec_defer_fields(ctx) + TRACE_STRUCT_FIELDS@
        + "} "@ + p + "_t;\n"@;
    lemma_contains_in_middle(a, spec_timer_fields(names), c, "    uint32_t _timer_"@ + names[k] + "_remaining_ms;\n"@);
    assert(spec_machine_struct(ctx) =~= a + spec_timer_fields(names) + c);
}

/// The machine struct the user allocates: context, active-leaf array,
/// history slots, timer countdowns, the event queue and the watchdog.
pub open spec fn spec_machine_struct(ctx: CtxView) -> Seq<char> {
    let p = ctx.machine.name@;
    let m = spec_c_ident(p);
    "/* ── Machine struct — user allocates this in stack/BSS/static ──────── */\ntypedef struct {\n"@
        + "    "@ + p + "_Context_t context;\n"@
        + "    "@ + p + "_StateId_t _active["@ + m + "_MAX_PARALLEL_REGIONS];\n"@
        + "    uint8_t _active_count;\n"@
        + spec_hist_fields(p, ctx.index@, ctx.index@.len() as int)
        + spec_timer_fields(spec_timer_names(ctx))
        + "    "@ + p + "_Event_t _queue["@ + m + "_QUEUE_CAPACITY];\n"@
        + "    uint8_t _queue_head;\n    uint8_t _queue_tail;\n    uint8_t _queue_count;\n"@
        + "    uint8_t _completion_depth; /* per-instance watchdog */\n"@
        + spec_defer_fields(ctx) + TRACE_STRUCT_FIELDS@
        + "} "@ + p + "_t;\n"@
}

/// The held-event buffer and its count, when some state defers an event.
pub open spec fn spec_defer_fields(ctx: CtxView) -> Seq<char> {
    if spec_has_defer_states(ctx.machine.root.states@) {
        "    "@ + ctx.machine.name@ + "_Event_t _deferred["@ + spec_c_ident(ctx.machine.name@)
            + "_DEFER_CAPACITY];\n    uint8_t _deferred_count;\n"@
    } else {
        Seq::empty()
    }
}

fn hist_fields(ctx: &MachineEmitCtx<'_>, p: &str) -> (r: String)
    requires
        ctx.index@.len() <= 256,
    ensures
        r@ == spec_hist_fields(p@, ctx.index@, ctx.index@.len() as int),
{
    let n = ctx.index.records.len();
    let mut s = String::new();
    let mut slot: u64 = 0;
    let mut i: usize = 0;
    while i < n
        invariant
            n == ctx.index@.len(),
            n <= 256,
            i <= n,
            slot == spec_hist_count(ctx.index@, i as int),
            slot <= i,
            s@ == spec_hist_fields(p@, ctx.index@, i as int),
        decreases n - i,
    {
        assert(ctx.index@[i as int] == ctx.index.records@[i as int]@);
        if ctx.index.records[i].history_pseudo.is_some() {
            let mut b = "    ".to_owned();
            b.append(p);
            b.append("_StateId_t _history_");
            b.append(ctx.index.records[i].c_name.as_str());
            b.append("; /* slot ");
            push_decimal(&mut b, slot);
            b.append(" */\n");
            s.append(b.as_str());
            slot = slot + 1;
        }
        i += 1;
    }
    s
}

fn timer_fields(names: &Vec<String>) -> (r: String)
    ensures
        r@ == spec_timer_fields(names_view(names@)),
{
    let mut s = String::new();
    let mut i: usize = 0;
    while i < names.len()
        invariant
            i <= names.len(),
            s@ == spec_timer_fields(names_view(names@.take(i as int))),
        decreases names.len() - i,
    {
        assert(names_view(names@.take(i + 1)).drop_last() =~= names_view(names@.take(i as int)));
        let mut b = "    uint32_t _timer_".to_owned();
        b.append(names[i].as_str());
        b.append("_remaining_ms;\n");
        s.append(b.as_str());
        i += 1;
    }
    assert(names@.take(i as int) =~= names@);
    s
}

#[verifier::rlimit(40)]
fn machine_struct(ctx: &MachineEmitCtx<'_>, p: &str, m: &str) -> (r: String)
    requires
        ctx.index.wf(),
        p@ == ctx.machine.name@,
        m@ == spec_c_ident(ctx.machine.name@),
    ensures
        r@ == spec_machine_struct(ctx@),
{
    let hist = hist_fields(ctx, p);
    let names = collect_timer_names(ctx);
    let timers = timer_fields(&names);
    let mut s = "/* ── Machine struct — user allocates this in stack/BSS/static ──────── */\ntypedef struct {\n".to_owned();
    s.append("    ");
    s.append(p);
    s.append("_Context_t context;\n");
    s.append("    ");
    s.append(p);
    s.append("_StateId_t _active[");
    s.append(m);
    s.append("_MAX_PARALLEL_REGIONS];\n");
    s.append("    uint8_t _active_count;\n");
    s.append(hist.as_str());
    s.append(timers.as_str());
    let mut q = "    ".to_owned();
    q.append(p);
    q.append("_Event_t _queue[");
    q.append(m);
    q.append("_QUEUE_CAPACITY];\n");
    q.append("    uint8_t _queue_head;\n    uint8_t _queue_tail;\n    uint8_t _queue_count;\n");
    q.append("    uint8_t _completion_depth; /* per-instance watchdog */\n");
    if machine_has_defer(ctx) {
        q.append("    ");
        q.append(p);
        q.append("_Event_t _deferred[");
        q.append(m);
        q.append("_DEFER_CAPACITY];\n    uint8_t _deferred_count;\n");
    }
    q.append(TRACE_STRUCT_FIELDS);
    q.append("} ");
    q.append(p);
    q.append("_t;\n");
    s.append(q.as_str());
    s
}

/// The body of the public header, after the banner.
pub open spec fn spec_header_body(ctx: CtxView) -> Seq<char> {
    let p = ctx.machine.name@;
    let g = spec_c_ident(p) + "_H"@;
    "#ifndef "@ + g + "\n#define "@ + g + "\n\n"@ + "#include <stdint.h>\n#include <stdbool.h>\n"@
        + "#include \""@ + p + "_conf.h\"\n\n"@ + "#ifdef __cplusplus\nextern \"C\" {\n#endif\n\n"@
        + spec_state_enum(ctx) + "\n"@ + spec_event_enum(ctx) + "\n"@ + spec_payload_structs(ctx)
        + spec_event_union(ctx) + "\n"@ + spec_context_struct(ctx) + "\n"@ + spec_machine_struct(ctx)
        + "\n"@ + spec_api_prototypes(p) + "\n#ifdef __cplusplus\n}\n#endif\n\n"@ + "#endif /* "@ + g
        + " */\n"@
}

/// The public header `<stem>.h`.
pub fn emit(ctx: &MachineEmitCtx<'_>) -> (f: EmittedFile)
    requires
        ctx.index.wf(),
        ctx.index@.len() <= 256,
    ensures
        f.path@ == ctx.machine.name@ + ".h"@,
        f.role == FileRole::Header,
        f.content@ == spec_header_block(ctx.config.license_spdx@, Some(ctx.machine.name@ + ".fsm (public API)"@))
            + "\n"@ + spec_header_body(ctx@),
{
    let p = ctx.type_prefix();
    let mstr = ctx.macro_prefix();
    let m = mstr.as_str();
    let stem = ctx.file_stem();
    let mut guard = mstr.clone();
    guard.append("_H");
    let mut src = stem.to_owned();
    src.append(".fsm (public API)");
    let mut content = header_block(ctx.config, Some(src.as_str()));
    content.append("\n");
    let states = state_enum(ctx, p, m);
    let events = event_enum(ctx, p, m);
    let payloads = payload_structs(ctx, p);
    let union = event_union(ctx, p);
    let context = context_struct(ctx, p);
    let machine = machine_struct(ctx, p, m);
    let api = api_prototypes(p);
    let mut b = "#ifndef ".to_owned();
    b.append(guard.as_str());
    b.append("\n#define ");
    b.append(guard.as_str());
    b.append("\n\n");
    b.append("#include <stdint.h>\n#include <stdbool.h>\n");
    b.append("#include \"");
    b.append(stem);
    b.append("_conf.h\"\n\n");
    b.append("#ifdef __cplusplus\nextern \"C\" {\n#endif\n\n");
    b.append(states.as_str());
    b.append("\n");
    b.append(events.as_str());
    b.append("\n");
    b.append(payloads.as_str());
    b.append(union.as_str());
    b.append("\n");
    b.append(context.as_str());
    b.append("\n");
    b.append(machine.as_str());
    b.append("\n");
    b.append(api.as_str());
    b.append("\n#ifdef __cplusplus\n}\n#endif\n\n");
    b.append("#endif /* ");
    b.append(guard.as_str());
    b.append(" */\n");
    content.append(b.as_str());
    let mut path = stem.to_owned();
    path.append(".h");
    EmittedFile { path, role: FileRole::Header, content }
}

} // verus!
