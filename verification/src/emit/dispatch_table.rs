//! The table dispatch strategy: a constant transition table sorted by
//! source state and priority, a per-row execute function, a per-row guard
//! check, and `<P>_dispatch`, which first selects at most one row per live
//! region and then executes the selected rows.

use vstd::prelude::*;

use crate::expr::{emit_guard, spec_guard};
use crate::ir::{RegionObject, StateNode, TransitionKind, TransitionObject, Trigger};
use crate::state_index::{lemma_lookup_range, spec_c_ident};
use crate::text::{push_decimal, spec_decimal};

use super::defer::{emit_defer_runtime, emit_defer_table, machine_has_defer, spec_defer_runtime, spec_defer_table, spec_has_defer_states, spec_masks_fit};
use super::dispatch_common::{parent_table, spec_event_by_id, spec_parent_table, trigger_event_payload_prefix, spec_payload_prefix};
use super::entry_exit::{lemma_must_lookup_range, spec_must_lookup};
use super::submachine::{
    collect_sub_refs, emit_completion_sweep, emit_delegation_block_table, emit_sub_pending_check, spec_collect_sub_refs,
    spec_delegation_block_table, spec_emit_completion_sweep, spec_emit_sub_pending_check,
};
use super::timer::{spec_collect_timers, spec_first_timer, timer_event_c};
use super::transition::body::{emit_transition_body, spec_transition_body};
use super::{ctx_wf, spec_event_c_enum, CtxView, MachineEmitCtx};

verus! {

/// One row of the transition table.
pub struct TransRow<'a> {
    pub source: u8,
    pub target: u8,
    pub trigger_c: String,
    pub priority: u16,
    pub kind_tag: u8,
    pub transition: &'a TransitionObject,
}

/// The mathematical form of a [`TransRow`].
pub struct RowView {
    pub source: u8,
    pub target: u8,
    pub trigger_c: Seq<char>,
    pub priority: u16,
    pub kind_tag: u8,
    pub transition: TransitionObject,
}

impl<'a> View for TransRow<'a> {
    type V = RowView;

    open spec fn view(&self) -> RowView {
        RowView {
            source: self.source,
            target: self.target,
            trigger_c: self.trigger_c@,
            priority: self.priority,
            kind_tag: self.kind_tag,
            transition: *self.transition,
        }
    }
}

pub open spec fn rows_view(v: Seq<TransRow>) -> Seq<RowView> {
    v.map_values(|r: TransRow| r@)
}

/// The table tag of a transition kind.
pub open spec fn spec_kind_tag(k: TransitionKind) -> u8 {
    match k {
        TransitionKind::External => 0,
        TransitionKind::Local => 1,
        TransitionKind::Internal => 2,
        TransitionKind::Completion => 3,
    }
}

/// The trigger column of a row: the event's enum, the timer's fired
/// event, or the completion event.
pub open spec fn spec_table_trigger(ctx: CtxView, t: TransitionObject) -> Seq<char> {
    let m = spec_c_ident(ctx.machine.name@);
    match t.trigger {
        Some(Trigger::Event { event_id }) => spec_event_c_enum(*ctx.machine, event_id@),
        Some(Trigger::After { timer_id }) | Some(Trigger::Every { timer_id }) => match spec_first_timer(spec_collect_timers(ctx), timer_id@) {
            Some(tm) => m + "_EVENT_"@ + tm.event_suffix,
            None => m + "_EVENT__COMPLETION"@,
        },
        _ => m + "_EVENT__COMPLETION"@,
    }
}

/// The row of transition `t`.
pub open spec fn spec_row(ctx: CtxView, t: TransitionObject) -> RowView {
    RowView {
        source: spec_must_lookup(ctx.index@, t.source@),
        target: spec_must_lookup(ctx.index@, t.target@),
        trigger_c: spec_table_trigger(ctx, t),
        priority: t.priority,
        kind_tag: spec_kind_tag(t.kind),
        transition: t,
    }
}

pub open spec fn spec_rows_of(ctx: CtxView, ts: Seq<TransitionObject>) -> Seq<RowView> {
    ts.map_values(|t: TransitionObject| spec_row(ctx, t))
}

/// The rows of a state tree in document order (a state's own transitions
/// before those of its descendants).
pub open spec fn spec_rows_node(ctx: CtxView, s: StateNode) -> Seq<RowView>
    decreases s,
{
    match s {
        StateNode::Simple(x) => spec_rows_of(ctx, x.transitions@),
        StateNode::Composite(c) => spec_rows_of(ctx, c.transitions@) + spec_rows_regions(ctx, c.regions@),
        StateNode::Parallel(p) => spec_rows_of(ctx, p.transitions@) + spec_rows_regions(ctx, p.regions@),
        StateNode::Submachine(x) => spec_rows_of(ctx, x.transitions@),
        _ => Seq::empty(),
    }
}

pub open spec fn spec_rows_regions(ctx: CtxView, rs: Seq<RegionObject>) -> Seq<RowView>
    decreases rs,
{
    if rs.len() == 0 {
        Seq::empty()
    } else {
        spec_rows_regions(ctx, rs.drop_last()) + spec_rows_states(ctx, rs.last().states@)
    }
}

pub open spec fn spec_rows_states(ctx: CtxView, ss: Seq<StateNode>) -> Seq<RowView>
    decreases ss,
{
    if ss.len() == 0 {
        Seq::empty()
    } else {
        spec_rows_states(ctx, ss.drop_last()) + spec_rows_node(ctx, ss.last())
    }
}

/// Row order: by source state, then by priority.
pub open spec fn spec_row_le(a: RowView, b: RowView) -> bool {
    a.source < b.source || (a.source == b.source && a.priority <= b.priority)
}

pub open spec fn spec_insert_row(x: RowView, t: Seq<RowView>) -> Seq<RowView>
    decreases t.len(),
{
    if t.len() == 0 {
        seq![x]
    } else if spec_row_le(t.last(), x) {
        t.push(x)
    } else {
        spec_insert_row(x, t.drop_last()).push(t.last())
    }
}

/// The stable sort of rows by (source, priority).
pub open spec fn spec_sort_rows(rs: Seq<RowView>) -> Seq<RowView>
    decreases rs.len(),
{
    if rs.len() == 0 {
        Seq::empty()
    } else {
        spec_insert_row(rs.last(), spec_sort_rows(rs.drop_last()))
    }
}

/// The rows of the machine, sorted.
pub open spec fn spec_collect_rows(ctx: CtxView) -> Seq<RowView> {
    spec_sort_rows(spec_rows_states(ctx, ctx.machine.root.states@))
}

/// Every row's states index the table.
pub open spec fn rows_in(v: Seq<RowView>, n: int) -> bool {
    forall|k: int| 0 <= k < v.len() ==> (#[trigger] v[k].source as int) < n && (v[k].target as int) < n
}

fn table_trigger(ctx: &MachineEmitCtx<'_>, t: &TransitionObject) -> (r: String)
    requires
        ctx.index.wf(),
    ensures
        r@ == spec_table_trigger(ctx@, *t),
{
    let mut comp = ctx.macro_prefix();
    comp.append("_EVENT__COMPLETION");
    match &t.trigger {
        Some(Trigger::Event { event_id }) => ctx.event_c_enum(event_id.as_str()),
        Some(Trigger::After { timer_id }) | Some(Trigger::Every { timer_id }) => match timer_event_c(ctx, timer_id.as_str()) {
            Some(e) => e,
            None => comp,
        },
        _ => comp,
    }
}

fn push_rows_of<'a>(ctx: &MachineEmitCtx<'_>, ts: &'a Vec<TransitionObject>, out: &mut Vec<TransRow<'a>>)
    requires
        ctx.index.wf(),
        rows_in(rows_view(old(out)@), ctx.index@.len() as int),
    ensures
        rows_view(final(out)@) == rows_view(old(out)@) + spec_rows_of(ctx@, ts@),
        rows_in(rows_view(final(out)@), ctx.index@.len() as int),
{
    let ghost o0 = rows_view(out@);
    let mut i: usize = 0;
    assert(o0 + spec_rows_of(ctx@, ts@.take(0)) =~= o0);
    while i < ts.len()
        invariant
            ctx.index.wf(),
            i <= ts.len(),
            rows_view(out@) == o0 + spec_rows_of(ctx@, ts@.take(i as int)),
            rows_in(rows_view(out@), ctx.index@.len() as int),
        decreases ts.len() - i,
    {
        let t = &ts[i];
        proof {
            lemma_must_lookup_range(ctx.index@, t.source@);
            lemma_must_lookup_range(ctx.index@, t.target@);
            lemma_lookup_range(ctx.index@, t.source@);
            lemma_lookup_range(ctx.index@, t.target@);
        }
        let source = ctx.index.must_lookup(t.source.as_str());
        let target = ctx.index.must_lookup(t.target.as_str());
        let kind_tag: u8 = match t.kind {
            TransitionKind::External => 0,
            TransitionKind::Local => 1,
            TransitionKind::Internal => 2,
            TransitionKind::Completion => 3,
        };
        let row = TransRow { source, target, trigger_c: table_trigger(ctx, t), priority: t.priority, kind_tag, transition: t };
        assert(row@ == spec_row(ctx@, *t));
        let ghost o1 = rows_view(out@);
        out.push(row);
        assert(rows_view(out@) =~= o1.push(row@));
        assert(spec_rows_of(ctx@, ts@.take(i + 1)) =~= spec_rows_of(ctx@, ts@.take(i as int)).push(spec_row(ctx@, *t)));
        assert(rows_view(out@) =~= o0 + spec_rows_of(ctx@, ts@.take(i + 1)));
        i += 1;
    }
    assert(ts@.take(i as int) =~= ts@);
}

fn rows_node<'a>(ctx: &MachineEmitCtx<'_>, s: &'a StateNode, out: &mut Vec<TransRow<'a>>)
    requires
        ctx.index.wf(),
        rows_in(rows_view(old(out)@), ctx.index@.len() as int),
    ensures
        rows_view(final(out)@) == rows_view(old(out)@) + spec_rows_node(ctx@, *s),
        rows_in(rows_view(final(out)@), ctx.index@.len() as int),
    decreases s,
{
    let ghost o0 = rows_view(out@);
    match s {
        StateNode::Simple(x) => push_rows_of(ctx, &x.transitions, out),
        StateNode::Composite(c) => {
            push_rows_of(ctx, &c.transitions, out);
            rows_regions(ctx, &c.regions, out);
        },
        StateNode::Parallel(p) => {
            push_rows_of(ctx, &p.transitions, out);
            rows_regions(ctx, &p.regions, out);
        },
        StateNode::Submachine(x) => push_rows_of(ctx, &x.transitions, out),
        _ => {},
    }
    assert(rows_view(out@) =~= o0 + spec_rows_node(ctx@, *s));
}

fn rows_regions<'a>(ctx: &MachineEmitCtx<'_>, rs: &'a Vec<RegionObject>, out: &mut Vec<TransRow<'a>>)
    requires
        ctx.index.wf(),
        rows_in(rows_view(old(out)@), ctx.index@.len() as int),
    ensures
        rows_view(final(out)@) == rows_view(old(out)@) + spec_rows_regions(ctx@, rs@),
        rows_in(rows_view(final(out)@), ctx.index@.len() as int),
    decreases rs,
{
    let ghost o0 = rows_view(out@);
    let mut i: usize = 0;
    assert(o0 + spec_rows_regions(ctx@, rs@.take(0)) =~= o0);
    while i < rs.len()
        invariant
            ctx.index.wf(),
            i <= rs.len(),
            rows_view(out@) == o0 + spec_rows_regions(ctx@, rs@.take(i as int)),
            rows_in(rows_view(out@), ctx.index@.len() as int),
        decreases rs.len() - i,
    {
        assert(rs@.take(i + 1).drop_last() =~= rs@.take(i as int));
        rows_states(ctx, &rs[i].states, out);
        assert(rows_view(out@) =~= o0 + spec_rows_regions(ctx@, rs@.take(i + 1)));
        i += 1;
    }
    assert(rs@.take(i as int) =~= rs@);
}

fn rows_states<'a>(ctx: &MachineEmitCtx<'_>, ss: &'a Vec<StateNode>, out: &mut Vec<TransRow<'a>>)
    requires
        ctx.index.wf(),
        rows_in(rows_view(old(out)@), ctx.index@.len() as int),
    ensures
        rows_view(final(out)@) == rows_view(old(out)@) + spec_rows_states(ctx@, ss@),
        rows_in(rows_view(final(out)@), ctx.index@.len() as int),
    decreases ss,
{
    let ghost o0 = rows_view(out@);
    let mut i: usize = 0;
    assert(o0 + spec_rows_states(ctx@, ss@.take(0)) =~= o0);
    while i < ss.len()
        invariant
            ctx.index.wf(),
            i <= ss.len(),
            rows_view(out@) == o0 + spec_rows_states(ctx@, ss@.take(i as int)),
            rows_in(rows_view(out@), ctx.index@.len() as int),
        decreases ss.len() - i,
    {
        assert(ss@.take(i + 1).drop_last() =~= ss@.take(i as int));
        rows_node(ctx, &ss[i], out);
        assert(rows_view(out@) =~= o0 + spec_rows_states(ctx@, ss@.take(i + 1)));
        i += 1;
    }
    assert(ss@.take(i as int) =~= ss@);
}

proof fn lemma_insert_row_in(x: RowView, t: Seq<RowView>, n: int)
    requires
        rows_in(t, n),
        (x.source as int) < n && (x.target as int) < n,
    ensures
        rows_in(spec_insert_row(x, t), n),
        spec_insert_row(x, t).len() == t.len() + 1,
    decreases t.len(),
{
    if t.len() > 0 && !spec_row_le(t.last(), x) {
        assert(rows_in(t.drop_last(), n));
        lemma_insert_row_in(x, t.drop_last(), n);
    }
}

fn insert_row<'a>(v: &mut Vec<TransRow<'a>>, x: TransRow<'a>)
    ensures
        rows_view(final(v)@) == spec_insert_row(x@, rows_view(old(v)@)),
{
    let ghost t0 = rows_view(v@);
    let ghost xv = x@;
    let mut j: usize = v.len();
    assert(t0.take(j as int) =~= t0);
    assert(spec_insert_row(xv, t0) =~= spec_insert_row(xv, t0.take(j as int)) + t0.skip(j as int));
    while j > 0 && !(v[j - 1].source < x.source || (v[j - 1].source == x.source && v[j - 1].priority <= x.priority))
        invariant
            rows_view(v@) == t0,
            xv == x@,
            j <= v.len(),
            spec_insert_row(xv, t0) == spec_insert_row(xv, t0.take(j as int)) + t0.skip(j as int),
        decreases j,
    {
        assert(t0.take(j as int).drop_last() =~= t0.take(j - 1));
        assert(t0.take(j as int).last() == t0[j - 1]);
        assert(t0[j - 1] == v@[j - 1]@);
        assert(spec_insert_row(xv, t0.take(j - 1)).push(t0[j - 1]) + t0.skip(j as int)
            =~= spec_insert_row(xv, t0.take(j - 1)) + t0.skip(j - 1));
        j -= 1;
    }
    if j > 0 {
        assert(t0.take(j as int).last() == t0[j - 1]);
        assert(t0[j - 1] == v@[j - 1]@);
    }
    assert(spec_insert_row(xv, t0.take(j as int)) =~= t0.take(j as int).push(xv));
    v.insert(j, x);
    assert(rows_view(v@) =~= t0.take(j as int).push(xv) + t0.skip(j as int));
}

/// The rows of the machine, sorted by source and priority (document order
/// among equals).
pub fn collect_transitions<'a>(ctx: &MachineEmitCtx<'a>) -> (r: Vec<TransRow<'a>>)
    requires
        ctx.index.wf(),
    ensures
        rows_view(r@) == spec_collect_rows(ctx@),
        rows_in(rows_view(r@), ctx.index@.len() as int),
{
    let mut raw: Vec<TransRow<'a>> = Vec::new();
    assert(rows_view(raw@) =~= Seq::<RowView>::empty());
    rows_states(ctx, &ctx.machine.root.states, &mut raw);
    assert(rows_view(raw@) =~= spec_rows_states(ctx@, ctx.machine.root.states@));
    let ghost rv = rows_view(raw@);
    let mut sorted: Vec<TransRow<'a>> = Vec::new();
    let mut i: usize = 0;
    assert(rows_view(sorted@) =~= spec_sort_rows(rv.take(0)));
    while i < raw.len()
        invariant
            ctx.index.wf(),
            rows_in(rv, ctx.index@.len() as int),
            rv == rows_view(raw@),
            i <= raw.len(),
            rows_view(sorted@) == spec_sort_rows(rv.take(i as int)),
            rows_in(rows_view(sorted@), ctx.index@.len() as int),
        decreases raw.len() - i,
    {
        let r = &raw[i];
        let x = TransRow {
            source: r.source,
            target: r.target,
            trigger_c: r.trigger_c.clone(),
            priority: r.priority,
            kind_tag: r.kind_tag,
            transition: r.transition,
        };
        assert(x@ == rv[i as int]);
        assert(rv.take(i + 1).drop_last() =~= rv.take(i as int));
        assert(rv.take(i + 1).last() == x@);
        proof {
            lemma_insert_row_in(x@, rows_view(sorted@), ctx.index@.len() as int);
        }
        insert_row(&mut sorted, x);
        i += 1;
    }
    assert(rv.take(i as int) =~= rv);
    sorted
}


/// The payload prefix of a row's transition: that of its event trigger,
/// `ev->__payload` for other triggers.
pub open spec fn spec_payload_for(ctx: CtxView, t: TransitionObject) -> Seq<char> {
    match t.trigger {
        Some(Trigger::Event { event_id }) => spec_payload_prefix(ctx, event_id@),
        _ => "ev->__payload"@,
    }
}

fn payload_prefix_for(ctx: &MachineEmitCtx<'_>, t: &TransitionObject) -> (r: String)
    ensures
        r@ == spec_payload_for(ctx@, *t),
{
    match &t.trigger {
        Some(Trigger::Event { event_id }) => trigger_event_payload_prefix(ctx, event_id.as_str()),
        _ => "ev->__payload".to_owned(),
    }
}

/// One line of the transition table.
pub open spec fn spec_table_row(ctx: CtxView, i: nat, r: RowView) -> Seq<char> {
    let m = spec_c_ident(ctx.machine.name@);
    "    { "@ + m + "_STATE_"@ + ctx.index@[r.source as int].c_name + ", "@ + r.trigger_c + ", "@ + m + "_STATE_"@
        + ctx.index@[r.target as int].c_name + ", "@ + spec_decimal(r.priority as nat) + ", "@
        + spec_decimal(r.kind_tag as nat) + ", "@ + spec_decimal(i) + " },\n"@
}

pub open spec fn spec_table_rows(ctx: CtxView, rs: Seq<RowView>) -> Seq<char>
    decreases rs.len(),
{
    if rs.len() == 0 {
        Seq::empty()
    } else {
        spec_table_rows(ctx, rs.drop_last()) + spec_table_row(ctx, (rs.len() - 1) as nat, rs.last())
    }
}

/// The row type and the constant transition table (a single unmatchable
/// sentinel row when the machine has no transition), and its size macro.
pub open spec fn spec_trans_table(ctx: CtxView, rs: Seq<RowView>) -> Seq<char> {
    let p = ctx.machine.name@;
    let m = spec_c_ident(p);
    "typedef struct {\n    "@ + p + "_StateId_t source;\n    "@ + p + "_EventId_t trigger;\n    "@ + p
        + "_StateId_t target;\n    uint16_t priority;\n    uint8_t kind;\n    uint16_t row_idx;\n} "@ + p + "_TransRow_t;\n"@
        + "static const "@ + p + "_TransRow_t "@ + p + "_trans_table[] = {\n"@
        + (if rs.len() == 0 {
            "    /* TD-BUG-1 sentinel: unmatchable (source == _COUNT). */\n    { "@ + m + "_STATE__COUNT, 0, "@ + m
                + "_STATE__COUNT, 0, 0, 0 },\n"@
        } else {
            Seq::empty()
        }) + spec_table_rows(ctx, rs) + "};\n"@
        + "#define "@ + m + "_TRANS_TABLE_SIZE (sizeof("@ + p + "_trans_table) / sizeof("@ + p + "_trans_table[0]))\n"@
}

fn trans_table(ctx: &MachineEmitCtx<'_>, p: &str, m: &str, rows: &Vec<TransRow<'_>>) -> (r: String)
    requires
        ctx.index.wf(),
        p@ == ctx.machine.name@,
        m@ == spec_c_ident(ctx.machine.name@),
        rows_in(rows_view(rows@), ctx.index@.len() as int),
    ensures
        r@ == spec_trans_table(ctx@, rows_view(rows@)),
{
    let ghost rv = rows_view(rows@);
    let mut body = String::new();
    let mut i: usize = 0;
    assert(rv.take(0) =~= Seq::<RowView>::empty());
    while i < rows.len()
        invariant
            ctx.index.wf(),
            m@ == spec_c_ident(ctx.machine.name@),
            rv == rows_view(rows@),
            rows_in(rv, ctx.index@.len() as int),
            i <= rows.len(),
            body@ == spec_table_rows(ctx@, rv.take(i as int)),
        decreases rows.len() - i,
    {
        assert(rv.take(i + 1).drop_last() =~= rv.take(i as int));
        assert(rv.take(i + 1).last() == rows@[i as int]@);
        let r = &rows[i];
        assert(rv[i as int] == rows@[i as int]@);
        assert(rv.len() == rows@.len());
        assert((rv[i as int].source as int) < ctx.index@.len() && (rv[i as int].target as int) < ctx.index@.len());
        let mut b = "    { ".to_owned();
        b.append(m); b.append("_STATE_"); b.append(ctx.index.get(r.source).c_name.as_str()); b.append(", ");
        b.append(r.trigger_c.as_str()); b.append(", ");
        b.append(m); b.append("_STATE_"); b.append(ctx.index.get(r.target).c_name.as_str()); b.append(", ");
        push_decimal(&mut b, r.priority as u64); b.append(", ");
        push_decimal(&mut b, r.kind_tag as u64); b.append(", ");
        push_decimal(&mut b, i as u64); b.append(" },\n");
        body.append(b.as_str());
        i += 1;
    }
    assert(rv.take(i as int) =~= rv);
    let mut s = "typedef struct {\n    ".to_owned();
    s.append(p); s.append("_StateId_t source;\n    "); s.append(p); s.append("_EventId_t trigger;\n    "); s.append(p);
    s.append("_StateId_t target;\n    uint16_t priority;\n    uint8_t kind;\n    uint16_t row_idx;\n} "); s.append(p);
    s.append("_TransRow_t;\n");
    s.append("static const "); s.append(p); s.append("_TransRow_t "); s.append(p); s.append("_trans_table[] = {\n");
    let mut sentinel = String::new();
    if rows.len() == 0 {
        sentinel.append("    /* TD-BUG-1 sentinel: unmatchable (source == _COUNT). */\n    { ");
        sentinel.append(m); sentinel.append("_STATE__COUNT, 0, "); sentinel.append(m); sentinel.append("_STATE__COUNT, 0, 0, 0 },\n");
    }
    s.append(sentinel.as_str());
    s.append(body.as_str());
    s.append("};\n");
    s.append("#define "); s.append(m); s.append("_TRANS_TABLE_SIZE (sizeof("); s.append(p); s.append("_trans_table) / sizeof(");
    s.append(p); s.append("_trans_table[0]))\n");
    s
}

/// One `case` of the execute function: the row's transition body.
pub open spec fn spec_exec_case(ctx: CtxView, i: nat, r: RowView) -> Seq<char> {
    "    case "@ + spec_decimal(i) + ": {\n"@
        + spec_transition_body(r.transition, ctx, spec_payload_for(ctx, r.transition), 8, "return;"@)
        + "        return;\n    }\n"@
}

pub open spec fn spec_exec_cases(ctx: CtxView, rs: Seq<RowView>) -> Seq<char>
    decreases rs.len(),
{
    if rs.len() == 0 {
        Seq::empty()
    } else {
        spec_exec_cases(ctx, rs.drop_last()) + spec_exec_case(ctx, (rs.len() - 1) as nat, rs.last())
    }
}

/// `<P>_execute_transition`: runs the body of the selected row.
pub open spec fn spec_execute_transition(ctx: CtxView, rs: Seq<RowView>) -> Seq<char> {
    let p = ctx.machine.name@;
    "static void "@ + p + "_execute_transition("@ + p + "_t *m, const "@ + p + "_TransRow_t *row, const "@ + p
        + "_Event_t *ev) {\n    (void)ev;\n"@ + (if rs.len() == 0 { "    (void)m;\n"@ } else { Seq::empty() })
        + "    switch (row->row_idx) {\n"@ + spec_exec_cases(ctx, rs) + "    default: break;\n    }\n}\n"@
}

fn execute_transition(ctx: &MachineEmitCtx<'_>, p: &str, rows: &Vec<TransRow<'_>>) -> (r: String)
    requires
        ctx_wf(ctx@),
        p@ == ctx.machine.name@,
    ensures
        r@ == spec_execute_transition(ctx@, rows_view(rows@)),
{
    let ghost rv = rows_view(rows@);
    let mut cases = String::new();
    let mut i: usize = 0;
    assert(rv.take(0) =~= Seq::<RowView>::empty());
    while i < rows.len()
        invariant
            ctx_wf(ctx@),
            rv == rows_view(rows@),
            i <= rows.len(),
            cases@ == spec_exec_cases(ctx@, rv.take(i as int)),
        decreases rows.len() - i,
    {
        assert(rv.take(i + 1).drop_last() =~= rv.take(i as int));
        assert(rv.take(i + 1).last() == rows@[i as int]@);
        let t = rows[i].transition;
        let pp = payload_prefix_for(ctx, t);
        let mut b = "    case ".to_owned();
        push_decimal(&mut b, i as u64);
        b.append(": {\n");
        emit_transition_body(t, ctx, pp.as_str(), 8, "return;", &mut b);
        b.append("        return;\n    }\n");
        cases.append(b.as_str());
        i += 1;
    }
    assert(rv.take(i as int) =~= rv);
    let mut s = "static void ".to_owned();
    s.append(p); s.append("_execute_transition("); s.append(p); s.append("_t *m, const "); s.append(p);
    s.append("_TransRow_t *row, const "); s.append(p); s.append("_Event_t *ev) {\n    (void)ev;\n");
    let mut v = String::new();
    if rows.len() == 0 {
        v.append("    (void)m;\n");
    }
    s.append(v.as_str());
    s.append("    switch (row->row_idx) {\n");
    s.append(cases.as_str());
    s.append("    default: break;\n    }\n}\n");
    s
}

/// The guard arm of one row.
pub open spec fn spec_guard_arm(ctx: CtxView, i: nat, r: RowView) -> Seq<char> {
    match r.transition.guard {
        None => "    case "@ + spec_decimal(i) + ": return true; /* unguarded */\n"@,
        Some(g) => "    case "@ + spec_decimal(i) + ": return "@
            + spec_guard(g, "m->context"@, spec_payload_for(ctx, r.transition)) + ";\n"@,
    }
}

pub open spec fn spec_guard_arms(ctx: CtxView, rs: Seq<RowView>) -> Seq<char>
    decreases rs.len(),
{
    if rs.len() == 0 {
        Seq::empty()
    } else {
        spec_guard_arms(ctx, rs.drop_last()) + spec_guard_arm(ctx, (rs.len() - 1) as nat, rs.last())
    }
}

/// `<P>_row_guard_enabled`: whether a row's guard holds (unguarded rows
/// always; always true in a machine without guards), silencing the
/// parameters its arms do not read.
pub open spec fn spec_row_guard_enabled(ctx: CtxView, rs: Seq<RowView>) -> Seq<char> {
    let p = ctx.machine.name@;
    let head = "/* Guard-aware selection. true => row_idx's transition is\n * enabled (guard holds, or unguarded/[else]); the first enabled row in\n * (source, priority, document-order) wins. */\n"@
        + "static bool "@ + p + "_row_guard_enabled(uint16_t row_idx, const "@ + p + "_t *m, const "@ + p + "_Event_t *ev) {\n"@;
    let arms = spec_guard_arms(ctx, rs);
    if !(exists|k: int| 0 <= k < rs.len() && (#[trigger] rs[k]).transition.guard is Some) {
        head + "    (void)row_idx; (void)m; (void)ev;\n    return true; /* no guarded transition in this machine */\n}\n"@
    } else {
        head + (if !crate::text::spec_contains_str(arms, "m->"@) { "    (void)m;\n"@ } else { Seq::empty() })
            + (if !crate::text::spec_contains_str(arms, "ev->"@) { "    (void)ev;\n"@ } else { Seq::empty() })
            + "    switch (row_idx) {\n"@ + arms + "    default: return true;\n    }\n}\n"@
    }
}

fn row_guard_enabled(ctx: &MachineEmitCtx<'_>, p: &str, rows: &Vec<TransRow<'_>>) -> (r: String)
    requires
        p@ == ctx.machine.name@,
    ensures
        r@ == spec_row_guard_enabled(ctx@, rows_view(rows@)),
{
    let ghost rv = rows_view(rows@);
    let mut head = "/* Guard-aware selection. true => row_idx's transition is\n * enabled (guard holds, or unguarded/[else]); the first enabled row in\n * (source, priority, document-order) wins. */\n".to_owned();
    head.append("static bool "); head.append(p); head.append("_row_guard_enabled(uint16_t row_idx, const "); head.append(p);
    head.append("_t *m, const "); head.append(p); head.append("_Event_t *ev) {\n");
    let mut any_guard = false;
    let mut arms = String::new();
    let mut i: usize = 0;
    assert(rv.take(0) =~= Seq::<RowView>::empty());
    while i < rows.len()
        invariant
            rv == rows_view(rows@),
            i <= rows.len(),
            arms@ == spec_guard_arms(ctx@, rv.take(i as int)),
            any_guard == (exists|k: int| 0 <= k < i && (#[trigger] rv[k]).transition.guard is Some),
        decreases rows.len() - i,
    {
        assert(rv.take(i + 1).drop_last() =~= rv.take(i as int));
        assert(rv.take(i + 1).last() == rows@[i as int]@);
        assert(rv[i as int] == rows@[i as int]@);
        let t = rows[i].transition;
        let mut b = "    case ".to_owned();
        push_decimal(&mut b, i as u64);
        match &t.guard {
            None => {
                b.append(": return true; /* unguarded */\n");
            },
            Some(g) => {
                let pp = payload_prefix_for(ctx, t);
                let cond = emit_guard(g, "m->context", pp.as_str());
                b.append(": return ");
                b.append(cond.as_str());
                b.append(";\n");
                any_guard = true;
            },
        }
        arms.append(b.as_str());
        i += 1;
    }
    assert(rv.take(i as int) =~= rv);
    if !any_guard {
        head.append("    (void)row_idx; (void)m; (void)ev;\n    return true; /* no guarded transition in this machine */\n}\n");
        return head;
    }
    let mut v = String::new();
    if !crate::text::contains_str(arms.as_str(), "m->") {
        v.append("    (void)m;\n");
    }
    if !crate::text::contains_str(arms.as_str(), "ev->") {
        v.append("    (void)ev;\n");
    }
    head.append(v.as_str());
    head.append("    switch (row_idx) {\n");
    head.append(arms.as_str());
    head.append("    default: return true;\n    }\n}\n");
    head
}


/// `<P>_select_for_region`: the first enabled row whose source is the
/// state or, failing that, one of its ancestors, and whose trigger is the
/// event.
pub open spec fn spec_collect_phase(p: Seq<char>, m: Seq<char>) -> Seq<char> {
    "static const "@
    + p
    + "_TransRow_t *"@
    + p
    + "_select_for_region("@
    + p
    + "_t *m, "@
    + p
    + "_StateId_t s, const "@
    + p
    + "_Event_t *ev) {\n    while (1) {\n        for (uint16_t i = 0; i < "@
    + m
    + "_TRANS_TABLE_SIZE; i++) {\n            const "@
    + p
    + "_TransRow_t *row = &"@
    + p
    + "_trans_table[i];\n            if (row->source != s) continue;\n            if (row->trigger != ev->id) continue;\n            if (!"@
    + p
    + "_row_guard_enabled(row->row_idx, m, ev)) continue;\n            return row;\n        }\n        if (s == "@
    + m
    + "_STATE_ROOT) return NULL;\n        s = "@
    + p
    + "_parent_table[s];\n    }\n}\n"@
}

fn collect_phase(p: &str, m: &str) -> (r: String)
    ensures
        r@ == spec_collect_phase(p@, m@),
{
    let mut s = "static const ".to_owned();
    s.append(p);
    s.append("_TransRow_t *");
    s.append(p);
    s.append("_select_for_region(");
    s.append(p);
    s.append("_t *m, ");
    s.append(p);
    s.append("_StateId_t s, const ");
    s.append(p);
    s.append("_Event_t *ev) {\n    while (1) {\n        for (uint16_t i = 0; i < ");
    s.append(m);
    s.append("_TRANS_TABLE_SIZE; i++) {\n            const ");
    s.append(p);
    s.append("_TransRow_t *row = &");
    s.append(p);
    s.append("_trans_table[i];\n            if (row->source != s) continue;\n            if (row->trigger != ev->id) continue;\n            if (!");
    s.append(p);
    s.append("_row_guard_enabled(row->row_idx, m, ev)) continue;\n            return row;\n        }\n        if (s == ");
    s.append(m);
    s.append("_STATE_ROOT) return NULL;\n        s = ");
    s.append(p);
    s.append("_parent_table[s];\n    }\n}\n");
    s
}

/// The guard and action function-pointer types.
pub open spec fn spec_typedefs(p: Seq<char>) -> Seq<char> {
    "typedef bool (*"@
    + p
    + "_GuardFn_t)(const "@
    + p
    + "_t *, const "@
    + p
    + "_Event_t *);\ntypedef void (*"@
    + p
    + "_ActionFn_t)("@
    + p
    + "_t *, const "@
    + p
    + "_Event_t *);\n"@
}

fn typedefs(p: &str) -> (r: String)
    ensures
        r@ == spec_typedefs(p@),
{
    let mut s = "typedef bool (*".to_owned();
    s.append(p);
    s.append("_GuardFn_t)(const ");
    s.append(p);
    s.append("_t *, const ");
    s.append(p);
    s.append("_Event_t *);\ntypedef void (*");
    s.append(p);
    s.append("_ActionFn_t)(");
    s.append(p);
    s.append("_t *, const ");
    s.append(p);
    s.append("_Event_t *);\n");
    s
}

/// The selection state of a machine with references.
pub open spec fn spec_sel_decl(m: Seq<char>, subs: bool) -> Seq<char> {
    if subs {
        "    bool __region_selected["@ + m + "_MAX_PARALLEL_REGIONS] = { false };\n    /* __delegated_any: a delegated-and-consumed event must not also be\n     * discarded/deferred (it counts as consumed). __sub_pending: a sub\n     * reached its Final, so the parent must process the synthetic\n     * completion even when no parent row was selected. */\n    bool __delegated_any = false;\n    bool __sub_pending = false;\n"@
    } else {
        Seq::empty()
    }
}

/// The selection loop over the live regions, innermost first.
pub open spec fn spec_region_collect(p: Seq<char>, subs: bool) -> Seq<char> {
    "    for (int8_t r = (int8_t)initial_active - 1; r >= 0; r--) {\n        const "@ + p + "_TransRow_t *row = "@ + p
        + "_select_for_region(m, m->_active[r], ev);\n"@
        + (if subs { "        if (row) { selected[selected_count++] = row; __region_selected[r] = true; }\n    }\n"@ } else { "        if (row) selected[selected_count++] = row;\n    }\n"@ })
}

/// The early return when nothing was selected (holding a deferred event).
pub open spec fn spec_no_row(p: Seq<char>, subs: bool, defer: bool) -> Seq<char> {
    let hold = if defer {
        "        if ("@ + p + "_active_config_defers(m, ev->id)) {\n            "@ + p + "_defer_push(m, ev);\n        }\n"@
    } else {
        Seq::empty()
    };
    if subs {
        "    if (selected_count == 0 && !__delegated_any && !__sub_pending) {\n"@ + hold
            + "        return; /* No row, nothing delegated, no sub completed. */\n    }\n"@
    } else {
        "    if (selected_count == 0) {\n"@ + hold + "        return; /* No region had an enabled transition. */\n    }\n"@
    }
}

/// `<P>_dispatch` of the table strategy: select at most one row per live
/// region (innermost first), delegate to references, return early (holding
/// a deferred event) when nothing was selected, execute the selected rows,
/// then run completion and drain released events.
pub open spec fn spec_table_outer(ctx: CtxView) -> Seq<char> {
    let p = ctx.machine.name@;
    let m = spec_c_ident(p);
    let srs = spec_collect_sub_refs(ctx);
    let subs = srs.len() > 0;
    let defer = spec_has_defer_states(ctx.machine.root.states@);
    let sel_decl = spec_sel_decl(m, subs);
    let collect = spec_region_collect(p, subs);
    let deleg = if subs { spec_delegation_block_table(ctx, srs, "    "@) } else { Seq::empty() };
    let pending = if subs { spec_emit_sub_pending_check(ctx, srs, "    "@) } else { Seq::empty() };
    let no_row = spec_no_row(p, subs, defer);
    let sweep = if subs { spec_emit_completion_sweep(ctx, srs, "    "@) } else { Seq::empty() };
    let release = if defer { "    "@ + p + "_release_deferred(m);\n"@ } else { Seq::empty() };
    let drain = if defer {
        "    {\n        "@ + p + "_Event_t __rd;\n        while ("@ + p + "_dequeue(m, &__rd)) {\n            "@ + p
            + "_dispatch(m, &__rd);\n        }\n    }\n"@
    } else {
        Seq::empty()
    };
    "\nvoid "@
    + p
    + "_dispatch("@
    + p
    + "_t *m, const "@
    + p
    + "_Event_t *ev) {\n    /* Collect-then-execute. One transition per region maximum.\n     *\n     * Deferred events: an unconsumed-but-deferred event is held, and held\n     * events are released to the queue front after a configuration-changing\n     * transition and drained. Both are emitted only for machines that defer. */\n    const "@
    + p
    + "_TransRow_t *selected["@
    + m
    + "_MAX_PARALLEL_REGIONS];\n    uint8_t selected_count = 0;\n"@
    + sel_decl
    + "    /* Iterate innermost-first. */\n    uint8_t initial_active = m->_active_count;\n"@
    + collect
    + deleg
    + pending
    + no_row
    + "\n    /* Execute phase: at most one transition per region. */\n    for (uint8_t i = 0; i < selected_count; i++) {\n        "@
    + p
    + "_execute_transition(m, selected[i], ev);\n    }\n"@
    + sweep
    + release
    + "    "@
    + p
    + "_handle_completion(m);\n"@
    + drain
    + "}\n"@
}

fn table_outer(ctx: &MachineEmitCtx<'_>) -> (r: String)
    requires
        ctx.index.wf(),
    ensures
        r@ == spec_table_outer(ctx@),
{
    let p = ctx.type_prefix();
    let mstr = ctx.macro_prefix();
    let m = mstr.as_str();
    let has_defer = machine_has_defer(ctx);
    let sub_refs = collect_sub_refs(ctx);
    let subs = sub_refs.len() > 0;
    let mut sel_decl = String::new();
    if subs {
        sel_decl.append("    bool __region_selected[");
        sel_decl.append(m);
        sel_decl.append("_MAX_PARALLEL_REGIONS] = { false };\n    /* __delegated_any: a delegated-and-consumed event must not also be\n     * discarded/deferred (it counts as consumed). __sub_pending: a sub\n     * reached its Final, so the parent must process the synthetic\n     * completion even when no parent row was selected. */\n    bool __delegated_any = false;\n    bool __sub_pending = false;\n");
    }
    let mut collect = "    for (int8_t r = (int8_t)initial_active - 1; r >= 0; r--) {\n        const ".to_owned();
    collect.append(p);
    collect.append("_TransRow_t *row = ");
    collect.append(p);
    collect.append("_select_for_region(m, m->_active[r], ev);\n");
    if subs {
        collect.append("        if (row) { selected[selected_count++] = row; __region_selected[r] = true; }\n    }\n");
    } else {
        collect.append("        if (row) selected[selected_count++] = row;\n    }\n");
    }
    let mut deleg = String::new();
    let mut pending = String::new();
    let mut sweep = String::new();
    if subs {
        emit_delegation_block_table(ctx, sub_refs.as_slice(), "    ", true, &mut deleg);
        emit_sub_pending_check(ctx, sub_refs.as_slice(), "    ", &mut pending);
        emit_completion_sweep(ctx, sub_refs.as_slice(), "    ", &mut sweep);
    }
    let mut hold = String::new();
    if has_defer {
        hold.append("        if (");
        hold.append(p);
        hold.append("_active_config_defers(m, ev->id)) {\n            ");
        hold.append(p);
        hold.append("_defer_push(m, ev);\n        }\n");
    }
    let mut no_row = String::new();
    if subs {
        no_row.append("    if (selected_count == 0 && !__delegated_any && !__sub_pending) {\n");
        no_row.append(hold.as_str());
        no_row.append("        return; /* No row, nothing delegated, no sub completed. */\n    }\n");
    } else {
        no_row.append("    if (selected_count == 0) {\n");
        no_row.append(hold.as_str());
        no_row.append("        return; /* No region had an enabled transition. */\n    }\n");
    }
    let mut release = String::new();
    let mut drain = String::new();
    if has_defer {
        release.append("    ");
        release.append(p);
        release.append("_release_deferred(m);\n");
        drain.append("    {\n        ");
        drain.append(p);
        drain.append("_Event_t __rd;\n        while (");
        drain.append(p);
        drain.append("_dequeue(m, &__rd)) {\n            ");
        drain.append(p);
        drain.append("_dispatch(m, &__rd);\n        }\n    }\n");
    }
    let mut s = "\nvoid ".to_owned();
    s.append(p);
    s.append("_dispatch(");
    s.append(p);
    s.append("_t *m, const ");
    s.append(p);
    s.append("_Event_t *ev) {\n    /* Collect-then-execute. One transition per region maximum.\n     *\n     * Deferred events: an unconsumed-but-deferred event is held, and held\n     * events are released to the queue front after a configuration-changing\n     * transition and drained. Both are emitted only for machines that defer. */\n    const ");
    s.append(p);
    s.append("_TransRow_t *selected[");
    s.append(m);
    s.append("_MAX_PARALLEL_REGIONS];\n    uint8_t selected_count = 0;\n");
    s.append(sel_decl.as_str());
    s.append("    /* Iterate innermost-first. */\n    uint8_t initial_active = m->_active_count;\n");
    s.append(collect.as_str());
    s.append(deleg.as_str());
    s.append(pending.as_str());
    s.append(no_row.as_str());
    s.append("\n    /* Execute phase: at most one transition per region. */\n    for (uint8_t i = 0; i < selected_count; i++) {\n        ");
    s.append(p);
    s.append("_execute_transition(m, selected[i], ev);\n    }\n");
    s.append(sweep.as_str());
    s.append(release.as_str());
    s.append("    ");
    s.append(p);
    s.append("_handle_completion(m);\n");
    s.append(drain.as_str());
    s.append("}\n");
    s
}

/// The table strategy's dispatch code: the parent table, the deferral
/// table and helpers (only for machines that defer), the function-pointer
/// types, the transition table, the execute function, the guard check,
/// the region selection and `<P>_dispatch`.
pub open spec fn spec_emit_dispatch(ctx: CtxView) -> Seq<char> {
    let p = ctx.machine.name@;
    let m = spec_c_ident(p);
    let rs = spec_collect_rows(ctx);
    spec_parent_table(ctx, "/* B-11 table dispatch: shares the parent-pointer table with the switch strategy. */\n"@, false) + "\n"@
        + (if spec_has_defer_states(ctx.machine.root.states@) {
            spec_defer_table(ctx) + "\n"@ + spec_defer_runtime(p, m) + "\n"@
        } else {
            Seq::empty()
        }) + spec_typedefs(p) + spec_trans_table(ctx, rs) + "\n"@ + spec_execute_transition(ctx, rs) + "\n"@
        + spec_row_guard_enabled(ctx, rs) + "\n"@ + spec_collect_phase(p, m) + "\n"@ + spec_table_outer(ctx)
}

/// The dispatch code of the table strategy.
pub fn emit_dispatch(ctx: &MachineEmitCtx<'_>) -> (r: String)
    requires
        ctx_wf(ctx@),
        spec_masks_fit(ctx@),
    ensures
        r@ == spec_emit_dispatch(ctx@),
{
    let p = ctx.type_prefix();
    let mstr = ctx.macro_prefix();
    let m = mstr.as_str();
    let mut s = parent_table(ctx, "/* B-11 table dispatch: shares the parent-pointer table with the switch strategy. */\n", false);
    s.append("\n");
    let mut d = String::new();
    if machine_has_defer(ctx) {
        let t = emit_defer_table(ctx);
        d.append(t.as_str());
        d.append("\n");
        let r = emit_defer_runtime(ctx);
        d.append(r.as_str());
        d.append("\n");
    }
    s.append(d.as_str());
    let td = typedefs(p);
    s.append(td.as_str());
    let rows = collect_transitions(ctx);
    let tt = trans_table(ctx, p, m, &rows);
    s.append(tt.as_str());
    s.append("\n");
    let ex = execute_transition(ctx, p, &rows);
    s.append(ex.as_str());
    s.append("\n");
    let ge = row_guard_enabled(ctx, p, &rows);
    s.append(ge.as_str());
    s.append("\n");
    let cp = collect_phase(p, m);
    s.append(cp.as_str());
    s.append("\n");
    let o = table_outer(ctx);
    s.append(o.as_str());
    s
}

} // verus!
