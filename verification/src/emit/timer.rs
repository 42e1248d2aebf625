//! State-owned timers: their discovery in the state tree, the fired-event
//! names and the `advance_clock` entry point that counts them down and
//! dispatches their events.

use vstd::prelude::*;

use crate::ir::{RegionObject, StateNode, TimerKind, TimerObject};
use crate::state_index::{lemma_lookup_range, spec_c_ident, spec_lookup, RecordView, StateIndex};
use crate::text::{lemma_contains_self, lemma_contains_trans, lemma_contains_within, spec_contains_str, ascii_upper, is_ascii_alnum, push_char, push_decimal, spec_ascii_upper, spec_decimal, spec_is_ascii_alnum};

use super::{CtxView, MachineEmitCtx};

verus! {

/// `s` with every `:` and `-` replaced by `_`.
pub open spec fn spec_sep_to_us(s: Seq<char>) -> Seq<char> {
    Seq::new(s.len(), |i: int| if s[i] == ':' || s[i] == '-' { '_' } else { s[i] })
}

/// The event-suffix form of a timer id: ASCII alphanumerics upper-cased,
/// every other character replaced by `_`.
pub open spec fn spec_timer_suffix(s: Seq<char>) -> Seq<char> {
    Seq::new(s.len(), |i: int| if spec_is_ascii_alnum(s[i]) { spec_ascii_upper(s[i]) } else { '_' })
}

pub(crate) fn sep_to_us(s: &str) -> (r: String)
    ensures
        r@ == spec_sep_to_us(s@),
{
    let mut out = String::new();
    let n = s.unicode_len();
    let mut i: usize = 0;
    while i < n
        invariant
            n == s@.len(),
            i <= n,
            out@ == spec_sep_to_us(s@).take(i as int),
        decreases n - i,
    {
        let c = s.get_char(i);
        if c == ':' || c == '-' {
            push_char(&mut out, '_');
        } else {
            push_char(&mut out, c);
        }
        assert(out@ =~= spec_sep_to_us(s@).take(i + 1));
        i += 1;
    }
    assert(out@ =~= spec_sep_to_us(s@));
    out
}

fn timer_suffix(timer_id: &str) -> (r: String)
    ensures
        r@ == spec_timer_suffix(timer_id@),
{
    let mut out = String::new();
    let n = timer_id.unicode_len();
    let mut i: usize = 0;
    while i < n
        invariant
            n == timer_id@.len(),
            i <= n,
            out@ == spec_timer_suffix(timer_id@).take(i as int),
        decreases n - i,
    {
        let c = timer_id.get_char(i);
        if is_ascii_alnum(c) {
            push_char(&mut out, ascii_upper(c));
        } else {
            push_char(&mut out, '_');
        }
        assert(out@ =~= spec_timer_suffix(timer_id@).take(i + 1));
        i += 1;
    }
    assert(out@ =~= spec_timer_suffix(timer_id@));
    out
}

/// One timer of the machine, resolved against the state index.
#[derive(Debug)]
pub struct TimerEntry {
    /// The IR id of the timer.
    pub timer_id: String,
    /// The C field stem: `<owner c_name>_<stable id with ':'/'-' as '_'>`.
    pub field_name: String,
    /// The event suffix: `TIMER_<stable id, upper-cased>_FIRED`.
    pub event_suffix: String,
    /// Index of the owning state.
    pub owner_state: u8,
    pub kind: TimerKind,
    pub duration_ms: u32,
    /// Index of the target state, when it names one that was indexed.
    pub target_state: Option<u8>,
}

/// The mathematical form of a [`TimerEntry`].
pub struct TimerView {
    pub timer_id: Seq<char>,
    pub field_name: Seq<char>,
    pub event_suffix: Seq<char>,
    pub owner_state: int,
    pub kind: TimerKind,
    pub duration_ms: u32,
    pub target_state: Option<int>,
}

impl View for TimerEntry {
    type V = TimerView;

    open spec fn view(&self) -> TimerView {
        TimerView {
            timer_id: self.timer_id@,
            field_name: self.field_name@,
            event_suffix: self.event_suffix@,
            owner_state: self.owner_state as int,
            kind: self.kind,
            duration_ms: self.duration_ms,
            target_state: crate::state_index::opt_u8_view(self.target_state),
        }
    }
}

pub open spec fn timers_view(v: Seq<TimerEntry>) -> Seq<TimerView> {
    v.map_values(|t: TimerEntry| t@)
}

/// Index of `id`, or the root sentinel when it was never indexed.
pub open spec fn spec_index_of(recs: Seq<RecordView>, id: Seq<char>) -> int {
    match spec_lookup(recs, id) {
        Some(i) => i,
        None => 0,
    }
}

/// The entry of timer `t` owned by the state with IR id `owner_id`.
pub open spec fn spec_timer_entry(recs: Seq<RecordView>, owner_id: Seq<char>, t: TimerObject) -> TimerView {
    let owner = spec_index_of(recs, owner_id);
    TimerView {
        timer_id: t.id@,
        field_name: recs[owner].c_name + "_"@ + spec_sep_to_us(t.stable_id@),
        event_suffix: "TIMER_"@ + spec_timer_suffix(spec_sep_to_us(t.stable_id@)) + "_FIRED"@,
        owner_state: owner,
        kind: t.kind,
        duration_ms: t.duration_ms,
        target_state: match t.target {
            Some(x) => spec_lookup(recs, x@),
            None => None,
        },
    }
}

/// The entries of the timers `ts` owned by the state `owner_id`.
pub open spec fn spec_own_timers(recs: Seq<RecordView>, owner_id: Seq<char>, ts: Seq<TimerObject>) -> Seq<TimerView> {
    ts.map_values(|t: TimerObject| spec_timer_entry(recs, owner_id, t))
}

/// The timers of a state and of its descendants, in document order (a
/// state's own timers before those of its regions).
pub open spec fn spec_timers_node(recs: Seq<RecordView>, s: StateNode) -> Seq<TimerView>
    decreases s,
{
    match s {
        StateNode::Simple(x) => spec_own_timers(recs, x.id@, x.timers@),
        StateNode::Composite(c) => spec_own_timers(recs, c.id@, c.timers@) + spec_timers_regions(recs, c.regions@),
        StateNode::Parallel(p) => spec_own_timers(recs, p.id@, p.timers@) + spec_timers_regions(recs, p.regions@),
        _ => Seq::empty(),
    }
}

pub open spec fn spec_timers_regions(recs: Seq<RecordView>, rs: Seq<RegionObject>) -> Seq<TimerView>
    decreases rs,
{
    if rs.len() == 0 {
        Seq::empty()
    } else {
        spec_timers_regions(recs, rs.drop_last()) + spec_timers_states(recs, rs.last().states@)
    }
}

pub open spec fn spec_timers_states(recs: Seq<RecordView>, ss: Seq<StateNode>) -> Seq<TimerView>
    decreases ss,
{
    if ss.len() == 0 {
        Seq::empty()
    } else {
        spec_timers_states(recs, ss.drop_last()) + spec_timers_node(recs, ss.last())
    }
}

fn push_own_timers(out: &mut Vec<TimerEntry>, index: &StateIndex, owner_id: &String, ts: &Vec<TimerObject>)
    requires
        index.wf(),
        owners_in_range(old(out)@, index@.len() as int),
    ensures
        owners_in_range(final(out)@, index@.len() as int),
        timers_view(final(out)@) == timers_view(old(out)@) + spec_own_timers(index@, owner_id@, ts@),
{
    let ghost start = timers_view(out@);
    let mut i: usize = 0;
    while i < ts.len()
        invariant
            index.wf(),
            owners_in_range(out@, index@.len() as int),
            i <= ts.len(),
            timers_view(out@) == start + spec_own_timers(index@, owner_id@, ts@.take(i as int)),
        decreases ts.len() - i,
    {
        let t = &ts[i];
        let owner = index.must_lookup(owner_id.as_str());
        proof {
            lemma_lookup_range(index@, owner_id@);
        }
        let target = match &t.target {
            Some(x) => index.lookup(x.as_str()),
            None => None,
        };
        let safe = sep_to_us(t.stable_id.as_str());
        let mut field_name = index.get(owner).c_name.clone();
        field_name.append("_");
        field_name.append(safe.as_str());
        let mut event_suffix = "TIMER_".to_owned();
        let suf = timer_suffix(safe.as_str());
        event_suffix.append(suf.as_str());
        event_suffix.append("_FIRED");
        let e = TimerEntry {
            timer_id: t.id.clone(),
            field_name,
            event_suffix,
            owner_state: owner,
            kind: t.kind,
            duration_ms: t.duration_ms,
            target_state: target,
        };
        assert(e@ == spec_timer_entry(index@, owner_id@, *t));
        let ghost o0 = out@;
        out.push(e);
        assert(timers_view(out@) =~= timers_view(o0).push(e@));
        assert(spec_own_timers(index@, owner_id@, ts@.take(i + 1))
            =~= spec_own_timers(index@, owner_id@, ts@.take(i as int)).push(e@));
        i += 1;
    }
    assert(ts@.take(i as int) =~= ts@);
}

fn walk_node(out: &mut Vec<TimerEntry>, index: &StateIndex, s: &StateNode)
    requires
        index.wf(),
        owners_in_range(old(out)@, index@.len() as int),
    ensures
        owners_in_range(final(out)@, index@.len() as int),
        timers_view(final(out)@) == timers_view(old(out)@) + spec_timers_node(index@, *s),
    decreases s,
{
    let ghost start = timers_view(out@);
    match s {
        StateNode::Simple(x) => {
            push_own_timers(out, index, &x.id, &x.timers);
        },
        StateNode::Composite(c) => {
            push_own_timers(out, index, &c.id, &c.timers);
            walk_regions(out, index, &c.regions);
            assert(timers_view(out@) =~= start + spec_timers_node(index@, *s));
        },
        StateNode::Parallel(p) => {
            push_own_timers(out, index, &p.id, &p.timers);
            walk_regions(out, index, &p.regions);
            assert(timers_view(out@) =~= start + spec_timers_node(index@, *s));
        },
        _ => {
            assert(timers_view(out@) =~= start + spec_timers_node(index@, *s));
        },
    }
}

fn walk_regions(out: &mut Vec<TimerEntry>, index: &StateIndex, rs: &Vec<RegionObject>)
    requires
        index.wf(),
        owners_in_range(old(out)@, index@.len() as int),
    ensures
        owners_in_range(final(out)@, index@.len() as int),
        timers_view(final(out)@) == timers_view(old(out)@) + spec_timers_regions(index@, rs@),
    decreases rs,
{
    let ghost start = timers_view(out@);
    let mut i: usize = 0;
    assert(start + spec_timers_regions(index@, rs@.take(0)) =~= start);
    while i < rs.len()
        invariant
            index.wf(),
            owners_in_range(out@, index@.len() as int),
            i <= rs.len(),
            timers_view(out@) == start + spec_timers_regions(index@, rs@.take(i as int)),
        decreases rs.len() - i,
    {
        assert(rs@.take(i + 1).drop_last() =~= rs@.take(i as int));
        walk_states(out, index, &rs[i].states);
        assert(timers_view(out@) =~= start + spec_timers_regions(index@, rs@.take(i + 1)));
        i += 1;
    }
    assert(rs@.take(i as int) =~= rs@);
}

fn walk_states(out: &mut Vec<TimerEntry>, index: &StateIndex, ss: &Vec<StateNode>)
    requires
        index.wf(),
        owners_in_range(old(out)@, index@.len() as int),
    ensures
        owners_in_range(final(out)@, index@.len() as int),
        timers_view(final(out)@) == timers_view(old(out)@) + spec_timers_states(index@, ss@),
    decreases ss,
{
    let ghost start = timers_view(out@);
    let mut i: usize = 0;
    assert(start + spec_timers_states(index@, ss@.take(0)) =~= start);
    while i < ss.len()
        invariant
            index.wf(),
            owners_in_range(out@, index@.len() as int),
            i <= ss.len(),
            timers_view(out@) == start + spec_timers_states(index@, ss@.take(i as int)),
        decreases ss.len() - i,
    {
        assert(ss@.take(i + 1).drop_last() =~= ss@.take(i as int));
        walk_node(out, index, &ss[i]);
        assert(timers_view(out@) =~= start + spec_timers_states(index@, ss@.take(i + 1)));
        i += 1;
    }
    assert(ss@.take(i as int) =~= ss@);
}

/// The timers of the machine in document order.
pub open spec fn spec_collect_timers(ctx: CtxView) -> Seq<TimerView> {
    spec_timers_states(ctx.index@, ctx.machine.root.states@)
}

/// Every state-owned timer of the machine, resolved against the index, in
/// document order.
pub fn collect_timers(ctx: &MachineEmitCtx<'_>) -> (r: Vec<TimerEntry>)
    requires
        ctx.index.wf(),
    ensures
        timers_view(r@) == spec_collect_timers(ctx@),
        owners_in_range(r@, ctx.index@.len() as int),
{
    let mut out: Vec<TimerEntry> = Vec::new();
    assert(timers_view(out@) =~= Seq::<TimerView>::empty());
    walk_states(&mut out, ctx.index, &ctx.machine.root.states);
    assert(timers_view(out@) =~= spec_collect_timers(ctx@));
    out
}

/// The first timer with IR id `id`, if any.
pub open spec fn spec_first_timer(ts: Seq<TimerView>, id: Seq<char>) -> Option<TimerView>
    decreases ts.len(),
{
    if ts.len() == 0 {
        None
    } else {
        match spec_first_timer(ts.drop_last(), id) {
            Some(t) => Some(t),
            None => if ts.last().timer_id == id { Some(ts.last()) } else { None },
        }
    }
}

proof fn lemma_first_timer_prefix(ts: Seq<TimerView>, k: int, id: Seq<char>)
    requires
        0 <= k <= ts.len(),
        spec_first_timer(ts.take(k), id) is Some,
    ensures
        spec_first_timer(ts, id) == spec_first_timer(ts.take(k), id),
    decreases ts.len(),
{
    if k < ts.len() {
        assert(ts.drop_last().take(k) =~= ts.take(k));
        lemma_first_timer_prefix(ts.drop_last(), k, id);
    } else {
        assert(ts.take(k) =~= ts);
    }
}

/// The C enum of the event fired by timer `timer_id`,
/// `<MACHINE>_EVENT_TIMER_..._FIRED`, when the machine has such a timer.
pub fn timer_event_c(ctx: &MachineEmitCtx<'_>, timer_id: &str) -> (r: Option<String>)
    requires
        ctx.index.wf(),
    ensures
        match spec_first_timer(spec_collect_timers(ctx@), timer_id@) {
            Some(t) => r matches Some(s) && s@ == spec_c_ident(ctx.machine.name@) + "_EVENT_"@ + t.event_suffix,
            None => r is None,
        },
{
    let timers = collect_timers(ctx);
    let ghost tv = timers_view(timers@);
    let mut i: usize = 0;
    while i < timers.len()
        invariant
            i <= timers.len(),
            tv == timers_view(timers@),
            tv == spec_collect_timers(ctx@),
            spec_first_timer(tv.take(i as int), timer_id@) is None,
        decreases timers.len() - i,
    {
        assert(tv.take(i + 1).drop_last() =~= tv.take(i as int));
        assert(tv.take(i + 1).last() == timers@[i as int]@);
        if crate::text::str_eq(timers[i].timer_id.as_str(), timer_id) {
            proof {
                assert(spec_first_timer(tv.take(i + 1), timer_id@) == Some(tv[i as int]));
                lemma_first_timer_prefix(tv, i + 1, timer_id@);
            }
            let mut s = ctx.macro_prefix();
            s.append("_EVENT_");
            s.append(timers[i].event_suffix.as_str());
            return Some(s);
        }
        i += 1;
    }
    assert(tv.take(i as int) =~= tv);
    None
}


/// Every entry's owner is a valid state index.
pub open spec fn owners_in_range(v: Seq<TimerEntry>, n: int) -> bool {
    forall|i: int| 0 <= i < v.len() ==> (#[trigger] v[i].owner_state as int) < n
}

/// Periodic timers re-arm when they fire.
pub open spec fn spec_is_periodic(k: TimerKind) -> bool {
    k == TimerKind::Every || k == TimerKind::EveryInternal
}

/// The re-arm line of a fired periodic timer (nothing for a one-shot).
pub open spec fn spec_rearm(t: TimerView) -> Seq<char> {
    if spec_is_periodic(t.kind) {
        "            m->_timer_"@ + t.field_name + "_remaining_ms = "@ + spec_decimal(t.duration_ms as nat) + "u;\n"@
    } else {
        Seq::empty()
    }
}

fn push_rearm(s: &mut String, t: &TimerEntry)
    ensures
        final(s)@ == old(s)@ + spec_rearm(t@),
{
    let ghost s0 = s@;
    if t.kind == TimerKind::Every || t.kind == TimerKind::EveryInternal {
        s.append("            m->_timer_");
        s.append(t.field_name.as_str());
        s.append("_remaining_ms = ");
        push_decimal(s, t.duration_ms as u64);
        s.append("u;\n");
    }
    assert(s@ =~= s0 + spec_rearm(t@));
}

/// The re-arm `case` of timer `t` at position `i` (nothing for a one-shot).
pub open spec fn spec_rearm_case(i: nat, t: TimerView) -> Seq<char> {
    if spec_is_periodic(t.kind) {
        "            case "@ + spec_decimal(i) + "u: m->_timer_"@ + t.field_name + "_remaining_ms = "@
            + spec_decimal(t.duration_ms as nat) + "u; break;\n"@
    } else {
        Seq::empty()
    }
}

fn push_rearm_case(s: &mut String, i: usize, t: &TimerEntry)
    ensures
        final(s)@ == old(s)@ + spec_rearm_case(i as nat, t@),
{
    let ghost s0 = s@;
    if t.kind == TimerKind::Every || t.kind == TimerKind::EveryInternal {
        s.append("            case ");
        push_decimal(s, i as u64);
        s.append("u: m->_timer_");
        s.append(t.field_name.as_str());
        s.append("_remaining_ms = ");
        push_decimal(s, t.duration_ms as u64);
        s.append("u; break;\n");
    }
    assert(s@ =~= s0 + spec_rearm_case(i as nat, t@));
}

/// Some state owns two or more of the timers.
pub open spec fn spec_shared_owner(ts: Seq<TimerView>) -> bool {
    exists|i: int, j: int| 0 <= i < j < ts.len() && ts[i].owner_state == ts[j].owner_state
}

/// Some timer is periodic.
pub open spec fn spec_has_periodic(ts: Seq<TimerView>) -> bool {
    exists|i: int| 0 <= i < ts.len() && spec_is_periodic(#[trigger] ts[i].kind)
}

fn shared_owner(timers: &Vec<TimerEntry>) -> (r: bool)
    ensures
        r == spec_shared_owner(timers_view(timers@)),
{
    let ghost tv = timers_view(timers@);
    let mut j: usize = 0;
    while j < timers.len()
        invariant
            j <= timers.len(),
            tv == timers_view(timers@),
            forall|a: int, b: int| 0 <= a < b < j ==> tv[a].owner_state != tv[b].owner_state,
        decreases timers.len() - j,
    {
        let mut i: usize = 0;
        while i < j
            invariant
                i <= j,
                j < timers.len(),
                tv == timers_view(timers@),
                forall|a: int| 0 <= a < i ==> tv[a].owner_state != tv[j as int].owner_state,
            decreases j - i,
        {
            if timers[i].owner_state == timers[j].owner_state {
                assert(tv[i as int].owner_state == tv[j as int].owner_state);
                return true;
            }
            i += 1;
        }
        j += 1;
    }
    false
}

fn has_periodic(timers: &Vec<TimerEntry>) -> (r: bool)
    ensures
        r == spec_has_periodic(timers_view(timers@)),
{
    let ghost tv = timers_view(timers@);
    let mut i: usize = 0;
    while i < timers.len()
        invariant
            i <= timers.len(),
            tv == timers_view(timers@),
            forall|a: int| 0 <= a < i ==> !spec_is_periodic(#[trigger] tv[a].kind),
        decreases timers.len() - i,
    {
        if timers[i].kind == TimerKind::Every || timers[i].kind == TimerKind::EveryInternal {
            assert(spec_is_periodic(tv[i as int].kind));
            return true;
        }
        i += 1;
    }
    false
}

fn periodic_or_empty(ctx: &MachineEmitCtx<'_>, p: &str, m: &str, timers: &Vec<TimerEntry>) -> (r: String)
    requires
        ctx.index.wf(),
        owners_in_range(timers@, ctx.index@.len() as int),
        p@ == ctx.machine.name@,
        m@ == spec_c_ident(ctx.machine.name@),
    ensures
        r@ == (if spec_has_periodic(timers_view(timers@)) {
            spec_periodic_block(ctx@, timers_view(timers@))
        } else {
            Seq::empty()
        }),
{
    if has_periodic(timers) {
        periodic_block(ctx, p, m, timers)
    } else {
        String::new()
    }
}

/// The body of the clock advance: the ordered form when some state owns
/// two timers (so that same-instant expiries fire in a stable order that
/// moves fired timers last), the plain form otherwise.
pub open spec fn spec_clock_body(ctx: CtxView, ts: Seq<TimerView>) -> Seq<char> {
    if spec_shared_owner(ts) {
        spec_ordered_head(ctx, ts)
            + (if spec_has_periodic(ts) { spec_periodic_block(ctx, ts) } else { Seq::empty() })
            + spec_ordered_tail(ctx, ts)
    } else {
        spec_legacy_body(ctx, ts)
    }
}

/// `<M>_advance_clock`: counts the active states' timers down by the
/// elapsed time, step by step to each expiry, and dispatches the fired
/// timers' events; with no timers the function only consumes its
/// arguments.
pub open spec fn spec_advance_clock(ctx: CtxView) -> Seq<char> {
    let ts = spec_collect_timers(ctx);
    let p = ctx.machine.name@;
    if ts.len() == 0 {
        "void "@ + p + "_advance_clock("@ + p + "_t *m, uint32_t elapsed_ms) {\n"@
            + "    (void)m; (void)elapsed_ms;\n}\n"@
    } else {
        "void "@ + p + "_advance_clock("@ + p + "_t *m, uint32_t elapsed_ms) {\n"@
            + "    (void)fsm_hal_clock_now_ms();\n"@ + spec_clock_body(ctx, ts) + "}\n"@
    }
}

/// The `<M>_advance_clock` function of the machine.
pub fn emit_advance_clock(ctx: &MachineEmitCtx<'_>) -> (r: String)
    requires
        ctx.index.wf(),
    ensures
        r@ == spec_advance_clock(ctx@),
{
    let p = ctx.type_prefix();
    let mstr = ctx.macro_prefix();
    let m = mstr.as_str();
    let mut s = "void ".to_owned();
    s.append(p); s.append("_advance_clock("); s.append(p); s.append("_t *m, uint32_t elapsed_ms) {\n");
    let timers = collect_timers(ctx);
    if timers.len() == 0 {
        s.append("    (void)m; (void)elapsed_ms;\n}\n");
        return s;
    }
    s.append("    (void)fsm_hal_clock_now_ms();\n");
    let body = if shared_owner(&timers) {
        let mut b = ordered_head(ctx, p, m, &timers);
        let mid = periodic_or_empty(ctx, p, m, &timers);
        b.append(mid.as_str());
        let tail = ordered_tail(ctx, p, m, &timers);
        b.append(tail.as_str());
        b
    } else {
        legacy_body(ctx, p, m, &timers)
    };
    s.append(body.as_str());
    s.append("}\n");
    s
}

/// One `scan` line of the clock advance for timer `t` at position `i`.
pub open spec fn spec_line_scan(ctx: CtxView, i: nat, t: TimerView) -> Seq<char> {
    "        if (m->_active["@
    + spec_decimal((ctx.layout.spec_slot(t.owner_state)) as nat)
    + "] == "@
    + spec_c_ident(ctx.machine.name@)
    + "_STATE_"@
    + ctx.index@[t.owner_state].c_name
    + " && m->_timer_"@
    + t.field_name
    + "_remaining_ms"@
    + " > 0u\n            && (step == 0u || m->_timer_"@
    + t.field_name
    + "_remaining_ms < step)) { step = m->_timer_"@
    + t.field_name
    + "_remaining_ms; }\n"@
}

fn push_line_scan(s: &mut String, ctx: &MachineEmitCtx<'_>, p: &str, m: &str, i: usize, t: &TimerEntry)
    requires
        ctx.index.wf(),
        (t.owner_state as int) < ctx.index@.len(),
        p@ == ctx.machine.name@,
        m@ == spec_c_ident(ctx.machine.name@),
    ensures
        final(s)@ == old(s)@ + spec_line_scan(ctx@, i as nat, t@),
{
    let ghost s0 = s@;
    let mut b = "        if (m->_active[".to_owned();
    push_decimal(&mut b, (ctx.layout.slot(t.owner_state)) as u64);
    b.append("] == ");
    b.append(m);
    b.append("_STATE_");
    b.append(ctx.index.get(t.owner_state).c_name.as_str());
    b.append(" && m->_timer_");
    b.append(t.field_name.as_str());
    b.append("_remaining_ms");
    b.append(" > 0u\n            && (step == 0u || m->_timer_");
    b.append(t.field_name.as_str());
    b.append("_remaining_ms < step)) { step = m->_timer_");
    b.append(t.field_name.as_str());
    b.append("_remaining_ms; }\n");
    s.append(b.as_str());
    assert(s@ =~= s0 + spec_line_scan(ctx@, i as nat, t@));
}

/// The `scan` lines of every timer in `ts`, in order.
pub open spec fn spec_fold_scan(ctx: CtxView, ts: Seq<TimerView>) -> Seq<char>
    decreases ts.len(),
{
    if ts.len() == 0 {
        Seq::empty()
    } else {
        spec_fold_scan(ctx, ts.drop_last()) + spec_line_scan(ctx, (ts.len() - 1) as nat, ts.last())
    }
}

fn push_fold_scan(s: &mut String, ctx: &MachineEmitCtx<'_>, p: &str, m: &str, ts: &Vec<TimerEntry>)
    requires
        ctx.index.wf(),
        owners_in_range(ts@, ctx.index@.len() as int),
        p@ == ctx.machine.name@,
        m@ == spec_c_ident(ctx.machine.name@),
    ensures
        final(s)@ == old(s)@ + spec_fold_scan(ctx@, timers_view(ts@)),
{
    let ghost s0 = s@;
    let ghost tv = timers_view(ts@);
    let mut i: usize = 0;
    assert(s0 + spec_fold_scan(ctx@, tv.take(0)) =~= s0);
    while i < ts.len()
        invariant
            ctx.index.wf(),
            owners_in_range(ts@, ctx.index@.len() as int),
            p@ == ctx.machine.name@,
            m@ == spec_c_ident(ctx.machine.name@),
            tv == timers_view(ts@),
            i <= ts.len(),
            s@ == s0 + spec_fold_scan(ctx@, tv.take(i as int)),
        decreases ts.len() - i,
    {
        assert(tv.take(i + 1).drop_last() =~= tv.take(i as int));
        assert(tv.take(i + 1).last() == ts@[i as int]@);
        push_line_scan(s, ctx, p, m, i, &ts[i]);
        assert(s@ =~= s0 + spec_fold_scan(ctx@, tv.take(i + 1)));
        i += 1;
    }
    assert(tv.take(i as int) =~= tv);
}

/// One `budget` line of the clock advance for timer `t` at position `i`.
pub open spec fn spec_line_budget(ctx: CtxView, i: nat, t: TimerView) -> Seq<char> {
    "            if (m->_active["@
    + spec_decimal((ctx.layout.spec_slot(t.owner_state)) as nat)
    + "] == "@
    + spec_c_ident(ctx.machine.name@)
    + "_STATE_"@
    + ctx.index@[t.owner_state].c_name
    + " && m->_timer_"@
    + t.field_name
    + "_remaining_ms"@
    + " > 0u) { m->_timer_"@
    + t.field_name
    + "_remaining_ms -= budget; }\n"@
}

fn push_line_budget(s: &mut String, ctx: &MachineEmitCtx<'_>, p: &str, m: &str, i: usize, t: &TimerEntry)
    requires
        ctx.index.wf(),
        (t.owner_state as int) < ctx.index@.len(),
        p@ == ctx.machine.name@,
        m@ == spec_c_ident(ctx.machine.name@),
    ensures
        final(s)@ == old(s)@ + spec_line_budget(ctx@, i as nat, t@),
{
    let ghost s0 = s@;
    let mut b = "            if (m->_active[".to_owned();
    push_decimal(&mut b, (ctx.layout.slot(t.owner_state)) as u64);
    b.append("] == ");
    b.append(m);
    b.append("_STATE_");
    b.append(ctx.index.get(t.owner_state).c_name.as_str());
    b.append(" && m->_timer_");
    b.append(t.field_name.as_str());
    b.append("_remaining_ms");
    b.append(" > 0u) { m->_timer_");
    b.append(t.field_name.as_str());
    b.append("_remaining_ms -= budget; }\n");
    s.append(b.as_str());
    assert(s@ =~= s0 + spec_line_budget(ctx@, i as nat, t@));
}

/// The `budget` lines of every timer in `ts`, in order.
pub open spec fn spec_fold_budget(ctx: CtxView, ts: Seq<TimerView>) -> Seq<char>
    decreases ts.len(),
{
    if ts.len() == 0 {
        Seq::empty()
    } else {
        spec_fold_budget(ctx, ts.drop_last()) + spec_line_budget(ctx, (ts.len() - 1) as nat, ts.last())
    }
}

fn push_fold_budget(s: &mut String, ctx: &MachineEmitCtx<'_>, p: &str, m: &str, ts: &Vec<TimerEntry>)
    requires
        ctx.index.wf(),
        owners_in_range(ts@, ctx.index@.len() as int),
        p@ == ctx.machine.name@,
        m@ == spec_c_ident(ctx.machine.name@),
    ensures
        final(s)@ == old(s)@ + spec_fold_budget(ctx@, timers_view(ts@)),
{
    let ghost s0 = s@;
    let ghost tv = timers_view(ts@);
    let mut i: usize = 0;
    assert(s0 + spec_fold_budget(ctx@, tv.take(0)) =~= s0);
    while i < ts.len()
        invariant
            ctx.index.wf(),
            owners_in_range(ts@, ctx.index@.len() as int),
            p@ == ctx.machine.name@,
            m@ == spec_c_ident(ctx.machine.name@),
            tv == timers_view(ts@),
            i <= ts.len(),
            s@ == s0 + spec_fold_budget(ctx@, tv.take(i as int)),
        decreases ts.len() - i,
    {
        assert(tv.take(i + 1).drop_last() =~= tv.take(i as int));
        assert(tv.take(i + 1).last() == ts@[i as int]@);
        push_line_budget(s, ctx, p, m, i, &ts[i]);
        assert(s@ =~= s0 + spec_fold_budget(ctx@, tv.take(i + 1)));
        i += 1;
    }
    assert(tv.take(i as int) =~= tv);
}

/// One `step` line of the clock advance for timer `t` at position `i`.
pub open spec fn spec_line_step(ctx: CtxView, i: nat, t: TimerView) -> Seq<char> {
    "        if (m->_active["@
    + spec_decimal((ctx.layout.spec_slot(t.owner_state)) as nat)
    + "] == "@
    + spec_c_ident(ctx.machine.name@)
    + "_STATE_"@
    + ctx.index@[t.owner_state].c_name
    + " && m->_timer_"@
    + t.field_name
    + "_remaining_ms"@
    + " > 0u) { m->_timer_"@
    + t.field_name
    + "_remaining_ms -= step; }\n"@
}

fn push_line_step(s: &mut String, ctx: &MachineEmitCtx<'_>, p: &str, m: &str, i: usize, t: &TimerEntry)
    requires
        ctx.index.wf(),
        (t.owner_state as int) < ctx.index@.len(),
        p@ == ctx.machine.name@,
        m@ == spec_c_ident(ctx.machine.name@),
    ensures
        final(s)@ == old(s)@ + spec_line_step(ctx@, i as nat, t@),
{
    let ghost s0 = s@;
    let mut b = "        if (m->_active[".to_owned();
    push_decimal(&mut b, (ctx.layout.slot(t.owner_state)) as u64);
    b.append("] == ");
    b.append(m);
    b.append("_STATE_");
    b.append(ctx.index.get(t.owner_state).c_name.as_str());
    b.append(" && m->_timer_");
    b.append(t.field_name.as_str());
    b.append("_remaining_ms");
    b.append(" > 0u) { m->_timer_");
    b.append(t.field_name.as_str());
    b.append("_remaining_ms -= step; }\n");
    s.append(b.as_str());
    assert(s@ =~= s0 + spec_line_step(ctx@, i as nat, t@));
}

/// The `step` lines of every timer in `ts`, in order.
pub open spec fn spec_fold_step(ctx: CtxView, ts: Seq<TimerView>) -> Seq<char>
    decreases ts.len(),
{
    if ts.len() == 0 {
        Seq::empty()
    } else {
        spec_fold_step(ctx, ts.drop_last()) + spec_line_step(ctx, (ts.len() - 1) as nat, ts.last())
    }
}

fn push_fold_step(s: &mut String, ctx: &MachineEmitCtx<'_>, p: &str, m: &str, ts: &Vec<TimerEntry>)
    requires
        ctx.index.wf(),
        owners_in_range(ts@, ctx.index@.len() as int),
        p@ == ctx.machine.name@,
        m@ == spec_c_ident(ctx.machine.name@),
    ensures
        final(s)@ == old(s)@ + spec_fold_step(ctx@, timers_view(ts@)),
{
    let ghost s0 = s@;
    let ghost tv = timers_view(ts@);
    let mut i: usize = 0;
    assert(s0 + spec_fold_step(ctx@, tv.take(0)) =~= s0);
    while i < ts.len()
        invariant
            ctx.index.wf(),
            owners_in_range(ts@, ctx.index@.len() as int),
            p@ == ctx.machine.name@,
            m@ == spec_c_ident(ctx.machine.name@),
            tv == timers_view(ts@),
            i <= ts.len(),
            s@ == s0 + spec_fold_step(ctx@, tv.take(i as int)),
        decreases ts.len() - i,
    {
        assert(tv.take(i + 1).drop_last() =~= tv.take(i as int));
        assert(tv.take(i + 1).last() == ts@[i as int]@);
        push_line_step(s, ctx, p, m, i, &ts[i]);
        assert(s@ =~= s0 + spec_fold_step(ctx@, tv.take(i + 1)));
        i += 1;
    }
    assert(tv.take(i as int) =~= tv);
}

/// One `fire` line of the clock advance for timer `t` at position `i`.
pub open spec fn spec_line_fire(ctx: CtxView, i: nat, t: TimerView) -> Seq<char> {
    "        if (m->_active["@
    + spec_decimal((ctx.layout.spec_slot(t.owner_state)) as nat)
    + "] == "@
    + spec_c_ident(ctx.machine.name@)
    + "_STATE_"@
    + ctx.index@[t.owner_state].c_name
    + " && m->_timer_"@
    + t.field_name
    + "_remaining_ms"@
    + " == 0u) {\n"@
    + spec_rearm(t)
    + "            "@
    + ctx.machine.name@
    + "_Event_t timer_ev;\n            timer_ev.id = "@
    + spec_c_ident(ctx.machine.name@)
    + "_EVENT_"@
    + t.event_suffix
    + ";\n            "@
    + ctx.machine.name@
    + "_dispatch(m, &timer_ev);\n        }\n"@
}

fn push_line_fire(s: &mut String, ctx: &MachineEmitCtx<'_>, p: &str, m: &str, i: usize, t: &TimerEntry)
    requires
        ctx.index.wf(),
        (t.owner_state as int) < ctx.index@.len(),
        p@ == ctx.machine.name@,
        m@ == spec_c_ident(ctx.machine.name@),
    ensures
        final(s)@ == old(s)@ + spec_line_fire(ctx@, i as nat, t@),
{
    let ghost s0 = s@;
    let mut b = "        if (m->_active[".to_owned();
    push_decimal(&mut b, (ctx.layout.slot(t.owner_state)) as u64);
    b.append("] == ");
    b.append(m);
    b.append("_STATE_");
    b.append(ctx.index.get(t.owner_state).c_name.as_str());
    b.append(" && m->_timer_");
    b.append(t.field_name.as_str());
    b.append("_remaining_ms");
    b.append(" == 0u) {\n");
    push_rearm(&mut b, t);
    b.append("            ");
    b.append(p);
    b.append("_Event_t timer_ev;\n            timer_ev.id = ");
    b.append(m);
    b.append("_EVENT_");
    b.append(t.event_suffix.as_str());
    b.append(";\n            ");
    b.append(p);
    b.append("_dispatch(m, &timer_ev);\n        }\n");
    s.append(b.as_str());
    assert(s@ =~= s0 + spec_line_fire(ctx@, i as nat, t@));
}

/// The `fire` lines of every timer in `ts`, in order.
pub open spec fn spec_fold_fire(ctx: CtxView, ts: Seq<TimerView>) -> Seq<char>
    decreases ts.len(),
{
    if ts.len() == 0 {
        Seq::empty()
    } else {
        spec_fold_fire(ctx, ts.drop_last()) + spec_line_fire(ctx, (ts.len() - 1) as nat, ts.last())
    }
}

fn push_fold_fire(s: &mut String, ctx: &MachineEmitCtx<'_>, p: &str, m: &str, ts: &Vec<TimerEntry>)
    requires
        ctx.index.wf(),
        owners_in_range(ts@, ctx.index@.len() as int),
        p@ == ctx.machine.name@,
        m@ == spec_c_ident(ctx.machine.name@),
    ensures
        final(s)@ == old(s)@ + spec_fold_fire(ctx@, timers_view(ts@)),
{
    let ghost s0 = s@;
    let ghost tv = timers_view(ts@);
    let mut i: usize = 0;
    assert(s0 + spec_fold_fire(ctx@, tv.take(0)) =~= s0);
    while i < ts.len()
        invariant
            ctx.index.wf(),
            owners_in_range(ts@, ctx.index@.len() as int),
            p@ == ctx.machine.name@,
            m@ == spec_c_ident(ctx.machine.name@),
            tv == timers_view(ts@),
            i <= ts.len(),
            s@ == s0 + spec_fold_fire(ctx@, tv.take(i as int)),
        decreases ts.len() - i,
    {
        assert(tv.take(i + 1).drop_last() =~= tv.take(i as int));
        assert(tv.take(i + 1).last() == ts@[i as int]@);
        push_line_fire(s, ctx, p, m, i, &ts[i]);
        assert(s@ =~= s0 + spec_fold_fire(ctx@, tv.take(i + 1)));
        i += 1;
    }
    assert(tv.take(i as int) =~= tv);
}

/// One `ocase_scan` line of the clock advance for timer `t` at position `i`.
pub open spec fn spec_line_ocase_scan(ctx: CtxView, i: nat, t: TimerView) -> Seq<char> {
    "            case "@
    + spec_decimal((i) as nat)
    + "u: "@
    + "if (m->_active["@
    + spec_decimal((ctx.layout.spec_slot(t.owner_state)) as nat)
    + "] == "@
    + spec_c_ident(ctx.machine.name@)
    + "_STATE_"@
    + ctx.index@[t.owner_state].c_name
    + " && m->_timer_"@
    + t.field_name
    + "_remaining_ms"@
    + " > 0u\n                && (step == 0u || m->_timer_"@
    + t.field_name
    + "_remaining_ms < step)) { step = m->_timer_"@
    + t.field_name
    + "_remaining_ms; } break;\n"@
}

fn push_line_ocase_scan(s: &mut String, ctx: &MachineEmitCtx<'_>, p: &str, m: &str, i: usize, t: &TimerEntry)
    requires
        ctx.index.wf(),
        (t.owner_state as int) < ctx.index@.len(),
        p@ == ctx.machine.name@,
        m@ == spec_c_ident(ctx.machine.name@),
    ensures
        final(s)@ == old(s)@ + spec_line_ocase_scan(ctx@, i as nat, t@),
{
    let ghost s0 = s@;
    let mut b = "            case ".to_owned();
    push_decimal(&mut b, (i) as u64);
    b.append("u: ");
    b.append("if (m->_active[");
    push_decimal(&mut b, (ctx.layout.slot(t.owner_state)) as u64);
    b.append("] == ");
    b.append(m);
    b.append("_STATE_");
    b.append(ctx.index.get(t.owner_state).c_name.as_str());
    b.append(" && m->_timer_");
    b.append(t.field_name.as_str());
    b.append("_remaining_ms");
    b.append(" > 0u\n                && (step == 0u || m->_timer_");
    b.append(t.field_name.as_str());
    b.append("_remaining_ms < step)) { step = m->_timer_");
    b.append(t.field_name.as_str());
    b.append("_remaining_ms; } break;\n");
    s.append(b.as_str());
    assert(s@ =~= s0 + spec_line_ocase_scan(ctx@, i as nat, t@));
}

/// The `ocase_scan` lines of every timer in `ts`, in order.
pub open spec fn spec_fold_ocase_scan(ctx: CtxView, ts: Seq<TimerView>) -> Seq<char>
    decreases ts.len(),
{
    if ts.len() == 0 {
        Seq::empty()
    } else {
        spec_fold_ocase_scan(ctx, ts.drop_last()) + spec_line_ocase_scan(ctx, (ts.len() - 1) as nat, ts.last())
    }
}

fn push_fold_ocase_scan(s: &mut String, ctx: &MachineEmitCtx<'_>, p: &str, m: &str, ts: &Vec<TimerEntry>)
    requires
        ctx.index.wf(),
        owners_in_range(ts@, ctx.index@.len() as int),
        p@ == ctx.machine.name@,
        m@ == spec_c_ident(ctx.machine.name@),
    ensures
        final(s)@ == old(s)@ + spec_fold_ocase_scan(ctx@, timers_view(ts@)),
{
    let ghost s0 = s@;
    let ghost tv = timers_view(ts@);
    let mut i: usize = 0;
    assert(s0 + spec_fold_ocase_scan(ctx@, tv.take(0)) =~= s0);
    while i < ts.len()
        invariant
            ctx.index.wf(),
            owners_in_range(ts@, ctx.index@.len() as int),
            p@ == ctx.machine.name@,
            m@ == spec_c_ident(ctx.machine.name@),
            tv == timers_view(ts@),
            i <= ts.len(),
            s@ == s0 + spec_fold_ocase_scan(ctx@, tv.take(i as int)),
        decreases ts.len() - i,
    {
        assert(tv.take(i + 1).drop_last() =~= tv.take(i as int));
        assert(tv.take(i + 1).last() == ts@[i as int]@);
        push_line_ocase_scan(s, ctx, p, m, i, &ts[i]);
        assert(s@ =~= s0 + spec_fold_ocase_scan(ctx@, tv.take(i + 1)));
        i += 1;
    }
    assert(tv.take(i as int) =~= tv);
}

/// One `ocase_fired` line of the clock advance for timer `t` at position `i`.
pub open spec fn spec_line_ocase_fired(ctx: CtxView, i: nat, t: TimerView) -> Seq<char> {
    "            case "@
    + spec_decimal((i) as nat)
    + "u: "@
    + "if (m->_active["@
    + spec_decimal((ctx.layout.spec_slot(t.owner_state)) as nat)
    + "] == "@
    + spec_c_ident(ctx.machine.name@)
    + "_STATE_"@
    + ctx.index@[t.owner_state].c_name
    + " && m->_timer_"@
    + t.field_name
    + "_remaining_ms"@
    + " == 0u) { fired[k] = true; } break;\n"@
}

fn push_line_ocase_fired(s: &mut String, ctx: &MachineEmitCtx<'_>, p: &str, m: &str, i: usize, t: &TimerEntry)
    requires
        ctx.index.wf(),
        (t.owner_state as int) < ctx.index@.len(),
        p@ == ctx.machine.name@,
        m@ == spec_c_ident(ctx.machine.name@),
    ensures
        final(s)@ == old(s)@ + spec_line_ocase_fired(ctx@, i as nat, t@),
{
    let ghost s0 = s@;
    let mut b = "            case ".to_owned();
    push_decimal(&mut b, (i) as u64);
    b.append("u: ");
    b.append("if (m->_active[");
    push_decimal(&mut b, (ctx.layout.slot(t.owner_state)) as u64);
    b.append("] == ");
    b.append(m);
    b.append("_STATE_");
    b.append(ctx.index.get(t.owner_state).c_name.as_str());
    b.append(" && m->_timer_");
    b.append(t.field_name.as_str());
    b.append("_remaining_ms");
    b.append(" == 0u) { fired[k] = true; } break;\n");
    s.append(b.as_str());
    assert(s@ =~= s0 + spec_line_ocase_fired(ctx@, i as nat, t@));
}

/// The `ocase_fired` lines of every timer in `ts`, in order.
pub open spec fn spec_fold_ocase_fired(ctx: CtxView, ts: Seq<TimerView>) -> Seq<char>
    decreases ts.len(),
{
    if ts.len() == 0 {
        Seq::empty()
    } else {
        spec_fold_ocase_fired(ctx, ts.drop_last()) + spec_line_ocase_fired(ctx, (ts.len() - 1) as nat, ts.last())
    }
}

fn push_fold_ocase_fired(s: &mut String, ctx: &MachineEmitCtx<'_>, p: &str, m: &str, ts: &Vec<TimerEntry>)
    requires
        ctx.index.wf(),
        owners_in_range(ts@, ctx.index@.len() as int),
        p@ == ctx.machine.name@,
        m@ == spec_c_ident(ctx.machine.name@),
    ensures
        final(s)@ == old(s)@ + spec_fold_ocase_fired(ctx@, timers_view(ts@)),
{
    let ghost s0 = s@;
    let ghost tv = timers_view(ts@);
    let mut i: usize = 0;
    assert(s0 + spec_fold_ocase_fired(ctx@, tv.take(0)) =~= s0);
    while i < ts.len()
        invariant
            ctx.index.wf(),
            owners_in_range(ts@, ctx.index@.len() as int),
            p@ == ctx.machine.name@,
            m@ == spec_c_ident(ctx.machine.name@),
            tv == timers_view(ts@),
            i <= ts.len(),
            s@ == s0 + spec_fold_ocase_fired(ctx@, tv.take(i as int)),
        decreases ts.len() - i,
    {
        assert(tv.take(i + 1).drop_last() =~= tv.take(i as int));
        assert(tv.take(i + 1).last() == ts@[i as int]@);
        push_line_ocase_fired(s, ctx, p, m, i, &ts[i]);
        assert(s@ =~= s0 + spec_fold_ocase_fired(ctx@, tv.take(i + 1)));
        i += 1;
    }
    assert(tv.take(i as int) =~= tv);
}

/// One `ocase_rearm` line of the clock advance for timer `t` at position `i`.
pub open spec fn spec_line_ocase_rearm(ctx: CtxView, i: nat, t: TimerView) -> Seq<char> {
    spec_rearm_case(i, t)
}

fn push_line_ocase_rearm(s: &mut String, ctx: &MachineEmitCtx<'_>, p: &str, m: &str, i: usize, t: &TimerEntry)
    requires
        ctx.index.wf(),
        (t.owner_state as int) < ctx.index@.len(),
        p@ == ctx.machine.name@,
        m@ == spec_c_ident(ctx.machine.name@),
    ensures
        final(s)@ == old(s)@ + spec_line_ocase_rearm(ctx@, i as nat, t@),
{
    let ghost s0 = s@;
    let mut b = String::new();
    push_rearm_case(&mut b, i, t);
    s.append(b.as_str());
    assert(s@ =~= s0 + spec_line_ocase_rearm(ctx@, i as nat, t@));
}

/// The `ocase_rearm` lines of every timer in `ts`, in order.
pub open spec fn spec_fold_ocase_rearm(ctx: CtxView, ts: Seq<TimerView>) -> Seq<char>
    decreases ts.len(),
{
    if ts.len() == 0 {
        Seq::empty()
    } else {
        spec_fold_ocase_rearm(ctx, ts.drop_last()) + spec_line_ocase_rearm(ctx, (ts.len() - 1) as nat, ts.last())
    }
}

fn push_fold_ocase_rearm(s: &mut String, ctx: &MachineEmitCtx<'_>, p: &str, m: &str, ts: &Vec<TimerEntry>)
    requires
        ctx.index.wf(),
        owners_in_range(ts@, ctx.index@.len() as int),
        p@ == ctx.machine.name@,
        m@ == spec_c_ident(ctx.machine.name@),
    ensures
        final(s)@ == old(s)@ + spec_fold_ocase_rearm(ctx@, timers_view(ts@)),
{
    let ghost s0 = s@;
    let ghost tv = timers_view(ts@);
    let mut i: usize = 0;
    assert(s0 + spec_fold_ocase_rearm(ctx@, tv.take(0)) =~= s0);
    while i < ts.len()
        invariant
            ctx.index.wf(),
            owners_in_range(ts@, ctx.index@.len() as int),
            p@ == ctx.machine.name@,
            m@ == spec_c_ident(ctx.machine.name@),
            tv == timers_view(ts@),
            i <= ts.len(),
            s@ == s0 + spec_fold_ocase_rearm(ctx@, tv.take(i as int)),
        decreases ts.len() - i,
    {
        assert(tv.take(i + 1).drop_last() =~= tv.take(i as int));
        assert(tv.take(i + 1).last() == ts@[i as int]@);
        push_line_ocase_rearm(s, ctx, p, m, i, &ts[i]);
        assert(s@ =~= s0 + spec_fold_ocase_rearm(ctx@, tv.take(i + 1)));
        i += 1;
    }
    assert(tv.take(i as int) =~= tv);
}

/// One `ocase_dispatch` line of the clock advance for timer `t` at position `i`.
pub open spec fn spec_line_ocase_dispatch(ctx: CtxView, i: nat, t: TimerView) -> Seq<char> {
    "            case "@
    + spec_decimal((i) as nat)
    + "u: { "@
    + ctx.machine.name@
    + "_Event_t timer_ev; timer_ev.id = "@
    + spec_c_ident(ctx.machine.name@)
    + "_EVENT_"@
    + t.event_suffix
    + "; "@
    + ctx.machine.name@
    + "_dispatch(m, &timer_ev); } break;\n"@
}

fn push_line_ocase_dispatch(s: &mut String, ctx: &MachineEmitCtx<'_>, p: &str, m: &str, i: usize, t: &TimerEntry)
    requires
        ctx.index.wf(),
        (t.owner_state as int) < ctx.index@.len(),
        p@ == ctx.machine.name@,
        m@ == spec_c_ident(ctx.machine.name@),
    ensures
        final(s)@ == old(s)@ + spec_line_ocase_dispatch(ctx@, i as nat, t@),
{
    let ghost s0 = s@;
    let mut b = "            case ".to_owned();
    push_decimal(&mut b, (i) as u64);
    b.append("u: { ");
    b.append(p);
    b.append("_Event_t timer_ev; timer_ev.id = ");
    b.append(m);
    b.append("_EVENT_");
    b.append(t.event_suffix.as_str());
    b.append("; ");
    b.append(p);
    b.append("_dispatch(m, &timer_ev); } break;\n");
    s.append(b.as_str());
    assert(s@ =~= s0 + spec_line_ocase_dispatch(ctx@, i as nat, t@));
}

/// The `ocase_dispatch` lines of every timer in `ts`, in order.
pub open spec fn spec_fold_ocase_dispatch(ctx: CtxView, ts: Seq<TimerView>) -> Seq<char>
    decreases ts.len(),
{
    if ts.len() == 0 {
        Seq::empty()
    } else {
        spec_fold_ocase_dispatch(ctx, ts.drop_last()) + spec_line_ocase_dispatch(ctx, (ts.len() - 1) as nat, ts.last())
    }
}

fn push_fold_ocase_dispatch(s: &mut String, ctx: &MachineEmitCtx<'_>, p: &str, m: &str, ts: &Vec<TimerEntry>)
    requires
        ctx.index.wf(),
        owners_in_range(ts@, ctx.index@.len() as int),
        p@ == ctx.machine.name@,
        m@ == spec_c_ident(ctx.machine.name@),
    ensures
        final(s)@ == old(s)@ + spec_fold_ocase_dispatch(ctx@, timers_view(ts@)),
{
    let ghost s0 = s@;
    let ghost tv = timers_view(ts@);
    let mut i: usize = 0;
    assert(s0 + spec_fold_ocase_dispatch(ctx@, tv.take(0)) =~= s0);
    while i < ts.len()
        invariant
            ctx.index.wf(),
            owners_in_range(ts@, ctx.index@.len() as int),
            p@ == ctx.machine.name@,
            m@ == spec_c_ident(ctx.machine.name@),
            tv == timers_view(ts@),
            i <= ts.len(),
            s@ == s0 + spec_fold_ocase_dispatch(ctx@, tv.take(i as int)),
        decreases ts.len() - i,
    {
        assert(tv.take(i + 1).drop_last() =~= tv.take(i as int));
        assert(tv.take(i + 1).last() == ts@[i as int]@);
        push_line_ocase_dispatch(s, ctx, p, m, i, &ts[i]);
        assert(s@ =~= s0 + spec_fold_ocase_dispatch(ctx@, tv.take(i + 1)));
        i += 1;
    }
    assert(tv.take(i as int) =~= tv);
}

/// The clock-advance loop when no state owns two timers: timers are visited in document order.
pub open spec fn spec_legacy_body(ctx: CtxView, ts: Seq<TimerView>) -> Seq<char> {
    "    uint32_t budget = elapsed_ms;\n    for (;;) {\n        uint32_t step = 0u;\n"@
    + spec_fold_scan(ctx, ts)
    + "        if (step == 0u || step > budget) {\n"@
    + spec_fold_budget(ctx, ts)
    + "            break;\n        }\n        budget -= step;\n"@
    + spec_fold_step(ctx, ts)
    + spec_fold_fire(ctx, ts)
    + "    }\n"@
}

fn legacy_body(ctx: &MachineEmitCtx<'_>, p: &str, m: &str, timers: &Vec<TimerEntry>) -> (r: String)
    requires
        ctx.index.wf(),
        owners_in_range(timers@, ctx.index@.len() as int),
        p@ == ctx.machine.name@,
        m@ == spec_c_ident(ctx.machine.name@),
    ensures
        r@ == spec_legacy_body(ctx@, timers_view(timers@)),
{
    let ghost ts = timers_view(timers@);
    let mut s = "    uint32_t budget = elapsed_ms;\n    for (;;) {\n        uint32_t step = 0u;\n".to_owned();
    push_fold_scan(&mut s, ctx, p, m, timers);
    s.append("        if (step == 0u || step > budget) {\n");
    push_fold_budget(&mut s, ctx, p, m, timers);
    s.append("            break;\n        }\n        budget -= step;\n");
    push_fold_step(&mut s, ctx, p, m, timers);
    push_fold_fire(&mut s, ctx, p, m, timers);
    s.append("    }\n");
    s
}

/// First half of the order-preserving clock-advance loop: the order array, the step scan, the countdown and the fired marks.
pub open spec fn spec_ordered_head(ctx: CtxView, ts: Seq<TimerView>) -> Seq<char> {
    "    uint8_t order["@
    + spec_decimal((ts.len()) as nat)
    + "];\n    bool fired["@
    + spec_decimal((ts.len()) as nat)
    + "];\n    uint8_t k;\n    for (k = 0u; k < "@
    + spec_decimal((ts.len()) as nat)
    + "u; ++k) { order[k] = k; }\n    uint32_t budget = elapsed_ms;\n    for (;;) {\n        uint32_t step = 0u;\n        for (k = 0u; k < "@
    + spec_decimal((ts.len()) as nat)
    + "u; ++k) {\n            switch (order[k]) {\n"@
    + spec_fold_ocase_scan(ctx, ts)
    + "            default: break;\n            }\n        }\n        if (step == 0u || step > budget) {\n"@
    + spec_fold_budget(ctx, ts)
    + "            break;\n        }\n        budget -= step;\n"@
    + spec_fold_step(ctx, ts)
    + "        for (k = 0u; k < "@
    + spec_decimal((ts.len()) as nat)
    + "u; ++k) { fired[k] = false; }\n        for (k = 0u; k < "@
    + spec_decimal((ts.len()) as nat)
    + "u; ++k) {\n            switch (order[k]) {\n"@
    + spec_fold_ocase_fired(ctx, ts)
    + "            default: break;\n            }\n        }\n"@
}

fn ordered_head(ctx: &MachineEmitCtx<'_>, p: &str, m: &str, timers: &Vec<TimerEntry>) -> (r: String)
    requires
        ctx.index.wf(),
        owners_in_range(timers@, ctx.index@.len() as int),
        p@ == ctx.machine.name@,
        m@ == spec_c_ident(ctx.machine.name@),
    ensures
        r@ == spec_ordered_head(ctx@, timers_view(timers@)),
{
    let ghost ts = timers_view(timers@);
    let mut s = "    uint8_t order[".to_owned();
    push_decimal(&mut s, (timers.len()) as u64);
    s.append("];\n    bool fired[");
    push_decimal(&mut s, (timers.len()) as u64);
    s.append("];\n    uint8_t k;\n    for (k = 0u; k < ");
    push_decimal(&mut s, (timers.len()) as u64);
    s.append("u; ++k) { order[k] = k; }\n    uint32_t budget = elapsed_ms;\n    for (;;) {\n        uint32_t step = 0u;\n        for (k = 0u; k < ");
    push_decimal(&mut s, (timers.len()) as u64);
    s.append("u; ++k) {\n            switch (order[k]) {\n");
    push_fold_ocase_scan(&mut s, ctx, p, m, timers);
    s.append("            default: break;\n            }\n        }\n        if (step == 0u || step > budget) {\n");
    push_fold_budget(&mut s, ctx, p, m, timers);
    s.append("            break;\n        }\n        budget -= step;\n");
    push_fold_step(&mut s, ctx, p, m, timers);
    s.append("        for (k = 0u; k < ");
    push_decimal(&mut s, (timers.len()) as u64);
    s.append("u; ++k) { fired[k] = false; }\n        for (k = 0u; k < ");
    push_decimal(&mut s, (timers.len()) as u64);
    s.append("u; ++k) {\n            switch (order[k]) {\n");
    push_fold_ocase_fired(&mut s, ctx, p, m, timers);
    s.append("            default: break;\n            }\n        }\n");
    s
}

/// The re-arm pass of fired periodic timers.
pub open spec fn spec_periodic_block(ctx: CtxView, ts: Seq<TimerView>) -> Seq<char> {
    "        for (k = 0u; k < "@
    + spec_decimal((ts.len()) as nat)
    + "u; ++k) {\n            if (!fired[k]) { continue; }\n            switch (order[k]) {\n"@
    + spec_fold_ocase_rearm(ctx, ts)
    + "            default: break;\n            }\n        }\n"@
}

fn periodic_block(ctx: &MachineEmitCtx<'_>, p: &str, m: &str, timers: &Vec<TimerEntry>) -> (r: String)
    requires
        ctx.index.wf(),
        owners_in_range(timers@, ctx.index@.len() as int),
        p@ == ctx.machine.name@,
        m@ == spec_c_ident(ctx.machine.name@),
    ensures
        r@ == spec_periodic_block(ctx@, timers_view(timers@)),
{
    let ghost ts = timers_view(timers@);
    let mut s = "        for (k = 0u; k < ".to_owned();
    push_decimal(&mut s, (timers.len()) as u64);
    s.append("u; ++k) {\n            if (!fired[k]) { continue; }\n            switch (order[k]) {\n");
    push_fold_ocase_rearm(&mut s, ctx, p, m, timers);
    s.append("            default: break;\n            }\n        }\n");
    s
}

/// Second half of the order-preserving clock-advance loop: the dispatch pass and the re-ordering that moves fired timers last.
pub open spec fn spec_ordered_tail(ctx: CtxView, ts: Seq<TimerView>) -> Seq<char> {
    "        for (k = 0u; k < "@
    + spec_decimal((ts.len()) as nat)
    + "u; ++k) {\n            if (!fired[k]) { continue; }\n            switch (order[k]) {\n"@
    + spec_fold_ocase_dispatch(ctx, ts)
    + "            default: break;\n            }\n        }\n        {\n            uint8_t neworder["@
    + spec_decimal((ts.len()) as nat)
    + "];\n            uint8_t w = 0u;\n            for (k = 0u; k < "@
    + spec_decimal((ts.len()) as nat)
    + "u; ++k) { if (!fired[k]) { neworder[w++] = order[k]; } }\n            for (k = 0u; k < "@
    + spec_decimal((ts.len()) as nat)
    + "u; ++k) { if (fired[k]) { neworder[w++] = order[k]; } }\n            for (k = 0u; k < "@
    + spec_decimal((ts.len()) as nat)
    + "u; ++k) { order[k] = neworder[k]; }\n        }\n    }\n"@
}

fn ordered_tail(ctx: &MachineEmitCtx<'_>, p: &str, m: &str, timers: &Vec<TimerEntry>) -> (r: String)
    requires
        ctx.index.wf(),
        owners_in_range(timers@, ctx.index@.len() as int),
        p@ == ctx.machine.name@,
        m@ == spec_c_ident(ctx.machine.name@),
    ensures
        r@ == spec_ordered_tail(ctx@, timers_view(timers@)),
{
    let ghost ts = timers_view(timers@);
    let mut s = "        for (k = 0u; k < ".to_owned();
    push_decimal(&mut s, (timers.len()) as u64);
    s.append("u; ++k) {\n            if (!fired[k]) { continue; }\n            switch (order[k]) {\n");
    push_fold_ocase_dispatch(&mut s, ctx, p, m, timers);
    s.append("            default: break;\n            }\n        }\n        {\n            uint8_t neworder[");
    push_decimal(&mut s, (timers.len()) as u64);
    s.append("];\n            uint8_t w = 0u;\n            for (k = 0u; k < ");
    push_decimal(&mut s, (timers.len()) as u64);
    s.append("u; ++k) { if (!fired[k]) { neworder[w++] = order[k]; } }\n            for (k = 0u; k < ");
    push_decimal(&mut s, (timers.len()) as u64);
    s.append("u; ++k) { if (fired[k]) { neworder[w++] = order[k]; } }\n            for (k = 0u; k < ");
    push_decimal(&mut s, (timers.len()) as u64);
    s.append("u; ++k) { order[k] = neworder[k]; }\n        }\n    }\n");
    s
}


/// The arming line of every timer in `ts` owned by state `idx`, each
/// commented with `note`.
pub open spec fn spec_arm_timers(ts: Seq<TimerView>, idx: int, pad: Seq<char>, note: Seq<char>) -> Seq<char>
    decreases ts.len(),
{
    if ts.len() == 0 {
        Seq::empty()
    } else {
        spec_arm_timers(ts.drop_last(), idx, pad, note) + if ts.last().owner_state == idx {
            pad + "m->_timer_"@ + ts.last().field_name + "_remaining_ms = "@
                + spec_decimal(ts.last().duration_ms as nat) + "u; /* "@ + note + " */\n"@
        } else {
            Seq::empty()
        }
    }
}

/// Appends the arming lines of the timers owned by state `idx`.
pub fn push_arm_timers(s: &mut String, ts: &Vec<TimerEntry>, idx: u8, pad: &str, note: &str)
    ensures
        final(s)@ == old(s)@ + spec_arm_timers(timers_view(ts@), idx as int, pad@, note@),
{
    let ghost s0 = s@;
    let ghost tv = timers_view(ts@);
    let mut i: usize = 0;
    assert(s0 + spec_arm_timers(tv.take(0), idx as int, pad@, note@) =~= s0);
    while i < ts.len()
        invariant
            tv == timers_view(ts@),
            i <= ts.len(),
            s@ == s0 + spec_arm_timers(tv.take(i as int), idx as int, pad@, note@),
        decreases ts.len() - i,
    {
        assert(tv.take(i + 1).drop_last() =~= tv.take(i as int));
        assert(tv.take(i + 1).last() == ts@[i as int]@);
        let ghost s1 = s@;
        if ts[i].owner_state == idx {
            let mut b = pad.to_owned();
            b.append("m->_timer_");
            b.append(ts[i].field_name.as_str());
            b.append("_remaining_ms = ");
            push_decimal(&mut b, ts[i].duration_ms as u64);
            b.append("u; /* ");
            b.append(note);
            b.append(" */\n");
            s.append(b.as_str());
        }
        assert(s@ =~= s0 + spec_arm_timers(tv.take(i + 1), idx as int, pad@, note@));
        i += 1;
    }
    assert(tv.take(i as int) =~= tv);
}


/// The assignment that re-arms timer `t` to its full period.
pub open spec fn rearm_assignment(t: TimerView) -> Seq<char> {
    "m->_timer_"@ + t.field_name + "_remaining_ms = "@ + spec_decimal(t.duration_ms as nat) + "u;"@
}

/// The text of a fire line before and after its re-arm part.
pub open spec fn fire_head(ctx: CtxView, t: TimerView) -> Seq<char> {
    "        if (m->_active["@
    + spec_decimal((ctx.layout.spec_slot(t.owner_state)) as nat)
    + "] == "@
    + spec_c_ident(ctx.machine.name@)
    + "_STATE_"@
    + ctx.index@[t.owner_state].c_name
    + " && m->_timer_"@
    + t.field_name
    + "_remaining_ms"@
    + " == 0u) {\n"@
}

pub open spec fn fire_tail(ctx: CtxView, t: TimerView) -> Seq<char> {
    "            "@
    + ctx.machine.name@
    + "_Event_t timer_ev;\n            timer_ev.id = "@
    + spec_c_ident(ctx.machine.name@)
    + "_EVENT_"@
    + t.event_suffix
    + ";\n            "@
    + ctx.machine.name@
    + "_dispatch(m, &timer_ev);\n        }\n"@
}

proof fn lemma_rearm_text(t: TimerView)
    ensures
        spec_is_periodic(t.kind) ==> spec_rearm(t) == "            "@ + rearm_assignment(t) + "\n"@,
        !spec_is_periodic(t.kind) ==> spec_rearm(t) == Seq::<char>::empty(),
{
    reveal_strlit("            m->_timer_");
    reveal_strlit("            ");
    reveal_strlit("m->_timer_");
    reveal_strlit("u;\n");
    reveal_strlit("u;");
    reveal_strlit("\n");
    if spec_is_periodic(t.kind) {
        assert(spec_rearm(t) =~= "            "@ + rearm_assignment(t) + "\n"@);
    }
}

proof fn lemma_rearm_case_text(i: nat, t: TimerView)
    ensures
        spec_is_periodic(t.kind) ==> spec_rearm_case(i, t) == "            case "@ + spec_decimal(i) + "u: "@
            + rearm_assignment(t) + " break;\n"@,
        !spec_is_periodic(t.kind) ==> spec_rearm_case(i, t) == Seq::<char>::empty(),
{
    reveal_strlit("u: m->_timer_");
    reveal_strlit("u: ");
    reveal_strlit("m->_timer_");
    reveal_strlit("u; break;\n");
    reveal_strlit("u;");
    reveal_strlit(" break;\n");
    if spec_is_periodic(t.kind) {
        assert(spec_rearm_case(i, t) =~= "            case "@ + spec_decimal(i) + "u: "@ + rearm_assignment(t) + " break;\n"@);
    }
}

proof fn lemma_line_fire_parts(ctx: CtxView, i: nat, t: TimerView)
    ensures
        spec_line_fire(ctx, i, t) == fire_head(ctx, t) + spec_rearm(t) + fire_tail(ctx, t),
{
    assert(spec_line_fire(ctx, i, t) =~= fire_head(ctx, t) + spec_rearm(t) + fire_tail(ctx, t));
}

/// When a timer fires, a periodic timer (`every`) first gets its period
/// back and a one-shot timer (`after`) does not: the fire line of the
/// periodic variants of a timer is the one-shot variant's line with exactly
/// the line `m->_timer_<f>_remaining_ms = <period>u;` inserted before the
/// dispatch, and the re-arm `case` of the ordered form holds the same
/// assignment for periodic timers and is empty for one-shot ones.
pub proof fn law_periodic_fire_rearms(ctx: CtxView, i: nat, t: TimerView)
    ensures
        ({
            let every = TimerView { kind: TimerKind::Every, ..t };
            let every_internal = TimerView { kind: TimerKind::EveryInternal, ..t };
            let once = TimerView { kind: TimerKind::After, ..t };
            let line = "            "@ + rearm_assignment(t) + "\n"@;
            &&& spec_line_fire(ctx, i, every) == fire_head(ctx, t) + line + fire_tail(ctx, t)
            &&& spec_line_fire(ctx, i, every_internal) == fire_head(ctx, t) + line + fire_tail(ctx, t)
            &&& spec_line_fire(ctx, i, once) == fire_head(ctx, t) + fire_tail(ctx, t)
            &&& spec_contains_str(spec_rearm_case(i, every), rearm_assignment(t))
            &&& spec_contains_str(spec_rearm_case(i, every_internal), rearm_assignment(t))
            &&& spec_rearm_case(i, once) == Seq::<char>::empty()
        }),
{
    let every = TimerView { kind: TimerKind::Every, ..t };
    let every_internal = TimerView { kind: TimerKind::EveryInternal, ..t };
    let once = TimerView { kind: TimerKind::After, ..t };
    let r = rearm_assignment(t);
    assert(rearm_assignment(every) == r && rearm_assignment(every_internal) == r);
    assert(fire_head(ctx, every) == fire_head(ctx, t) && fire_tail(ctx, every) == fire_tail(ctx, t));
    assert(fire_head(ctx, every_internal) == fire_head(ctx, t) && fire_tail(ctx, every_internal) == fire_tail(ctx, t));
    assert(fire_head(ctx, once) == fire_head(ctx, t) && fire_tail(ctx, once) == fire_tail(ctx, t));
    lemma_rearm_text(every);
    lemma_rearm_text(every_internal);
    lemma_rearm_text(once);
    lemma_line_fire_parts(ctx, i, every);
    lemma_line_fire_parts(ctx, i, every_internal);
    lemma_line_fire_parts(ctx, i, once);
    assert(fire_head(ctx, t) + Seq::<char>::empty() + fire_tail(ctx, t) =~= fire_head(ctx, t) + fire_tail(ctx, t));
    lemma_rearm_case_text(i, every);
    lemma_rearm_case_text(i, every_internal);
    lemma_rearm_case_text(i, once);
    lemma_contains_self(r);
    lemma_contains_within("            case "@ + spec_decimal(i) + "u: "@, r, " break;\n"@, r);
}

proof fn lemma_fold_fire_contains(ctx: CtxView, ts: Seq<TimerView>, k: int)
    requires
        0 <= k < ts.len(),
    ensures
        spec_contains_str(spec_fold_fire(ctx, ts), spec_line_fire(ctx, k as nat, ts[k])),
    decreases ts.len(),
{
    let rest = ts.drop_last();
    if k < ts.len() - 1 {
        lemma_fold_fire_contains(ctx, rest, k);
        assert(rest[k] == ts[k]);
        lemma_contains_within(Seq::empty(), spec_fold_fire(ctx, rest), spec_line_fire(ctx, (ts.len() - 1) as nat, ts.last()), spec_line_fire(ctx, k as nat, ts[k]));
        assert(Seq::<char>::empty() + spec_fold_fire(ctx, rest) + spec_line_fire(ctx, (ts.len() - 1) as nat, ts.last()) =~= spec_fold_fire(ctx, ts));
    } else {
        let l = spec_line_fire(ctx, k as nat, ts[k]);
        lemma_contains_self(l);
        lemma_contains_within(spec_fold_fire(ctx, rest), l, Seq::empty(), l);
        assert(spec_fold_fire(ctx, rest) + l + Seq::<char>::empty() =~= spec_fold_fire(ctx, ts));
    }
}

proof fn lemma_fold_ocase_contains(ctx: CtxView, ts: Seq<TimerView>, k: int)
    requires
        0 <= k < ts.len(),
    ensures
        spec_contains_str(spec_fold_ocase_rearm(ctx, ts), spec_rearm_case(k as nat, ts[k])),
    decreases ts.len(),
{
    let rest = ts.drop_last();
    if k < ts.len() - 1 {
        lemma_fold_ocase_contains(ctx, rest, k);
        assert(rest[k] == ts[k]);
        lemma_contains_within(Seq::empty(), spec_fold_ocase_rearm(ctx, rest), spec_line_ocase_rearm(ctx, (ts.len() - 1) as nat, ts.last()), spec_rearm_case(k as nat, ts[k]));
        assert(Seq::<char>::empty() + spec_fold_ocase_rearm(ctx, rest) + spec_line_ocase_rearm(ctx, (ts.len() - 1) as nat, ts.last()) =~= spec_fold_ocase_rearm(ctx, ts));
    } else {
        let l = spec_rearm_case(k as nat, ts[k]);
        lemma_contains_self(l);
        lemma_contains_within(spec_fold_ocase_rearm(ctx, rest), l, Seq::empty(), l);
        assert(spec_fold_ocase_rearm(ctx, rest) + l + Seq::<char>::empty() =~= spec_fold_ocase_rearm(ctx, ts));
    }
}

/// Every periodic timer of the machine is re-armed to its full period by
/// `<M>_advance_clock` when it fires, in the plain and in the ordered form
/// of the clock advance.
pub proof fn law_advance_clock_rearms_periodic(ctx: CtxView, k: int)
    requires
        0 <= k < spec_collect_timers(ctx).len(),
        spec_is_periodic(spec_collect_timers(ctx)[k].kind),
    ensures
        spec_contains_str(spec_advance_clock(ctx), rearm_assignment(spec_collect_timers(ctx)[k])),
{
    let ts = spec_collect_timers(ctx);
    let t = ts[k];
    let r = rearm_assignment(t);
    let p = ctx.machine.name@;
    let head = "void "@ + p + "_advance_clock("@ + p + "_t *m, uint32_t elapsed_ms) {\n"@
        + "    (void)fsm_hal_clock_now_ms();\n"@;
    law_periodic_fire_rearms(ctx, k as nat, t);
    if spec_shared_owner(ts) {
        assert(spec_has_periodic(ts));
        lemma_fold_ocase_contains(ctx, ts, k);
        let case_k = spec_rearm_case(k as nat, t);
        if t.kind == TimerKind::Every {
            assert(case_k == spec_rearm_case(k as nat, TimerView { kind: TimerKind::Every, ..t }));
        } else {
            assert(case_k == spec_rearm_case(k as nat, TimerView { kind: TimerKind::EveryInternal, ..t }));
        }
        lemma_contains_trans(spec_fold_ocase_rearm(ctx, ts), case_k, r);
        let pb = spec_periodic_block(ctx, ts);
        let pb_pre = "        for (k = 0u; k < "@ + spec_decimal((ts.len()) as nat)
            + "u; ++k) {\n            if (!fired[k]) { continue; }\n            switch (order[k]) {\n"@;
        let pb_post = "            default: break;\n            }\n        }\n"@;
        lemma_contains_within(pb_pre, spec_fold_ocase_rearm(ctx, ts), pb_post, r);
        assert(pb =~= pb_pre + spec_fold_ocase_rearm(ctx, ts) + pb_post);
        let body = spec_clock_body(ctx, ts);
        lemma_contains_within(spec_ordered_head(ctx, ts), pb, spec_ordered_tail(ctx, ts), r);
        assert(body =~= spec_ordered_head(ctx, ts) + pb + spec_ordered_tail(ctx, ts));
        lemma_contains_within(head, body, "}\n"@, r);
        assert(spec_advance_clock(ctx) =~= head + body + "}\n"@);
    } else {
        lemma_fold_fire_contains(ctx, ts, k);
        let line_k = spec_line_fire(ctx, k as nat, t);
        let line = "            "@ + r + "\n"@;
        if t.kind == TimerKind::Every {
            assert(line_k == spec_line_fire(ctx, k as nat, TimerView { kind: TimerKind::Every, ..t }));
        } else {
            assert(line_k == spec_line_fire(ctx, k as nat, TimerView { kind: TimerKind::EveryInternal, ..t }));
        }
        lemma_contains_self(r);
        lemma_contains_within("            "@, r, "\n"@, r);
        lemma_contains_within(fire_head(ctx, t), line, fire_tail(ctx, t), r);
        lemma_contains_trans(spec_fold_fire(ctx, ts), line_k, r);
        let lb = spec_legacy_body(ctx, ts);
        let lb_pre = "    uint32_t budget = elapsed_ms;\n    for (;;) {\n        uint32_t step = 0u;\n"@
            + spec_fold_scan(ctx, ts)
            + "        if (step == 0u || step > budget) {\n"@
            + spec_fold_budget(ctx, ts)
            + "            break;\n        }\n        budget -= step;\n"@
            + spec_fold_step(ctx, ts);
        lemma_contains_within(lb_pre, spec_fold_fire(ctx, ts), "    }\n"@, r);
        assert(lb =~= lb_pre + spec_fold_fire(ctx, ts) + "    }\n"@);
        lemma_contains_within(head, lb, "}\n"@, r);
        assert(spec_advance_clock(ctx) =~= head + lb + "}\n"@);
    }
}

} // verus!
