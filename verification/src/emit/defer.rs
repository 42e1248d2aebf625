//! Deferred events: the per-state defer mask table and the run-time
//! helpers that hold a deferred event and release it once no active state
//! defers it any more.

use vstd::prelude::*;

use crate::ir::{DeferDecl, EventObject, RegionObject, StateNode};
use crate::state_index::spec_c_ident;
use crate::text::{push_char, str_eq};

use super::{CtxView, MachineEmitCtx};

verus! {

pub open spec fn spec_defers_node(s: StateNode, id: Seq<char>) -> Option<Seq<DeferDecl>>
    decreases s,
{
    match s {
        StateNode::Simple(x) => if x.id@ == id { Some(x.defers@) } else { None },
        StateNode::Composite(c) => if c.id@ == id { Some(c.defers@) } else { spec_defers_regions(c.regions@, id) },
        StateNode::Parallel(p) => if p.id@ == id { Some(p.defers@) } else { spec_defers_regions(p.regions@, id) },
        _ => None,
    }
}

pub open spec fn spec_defers_regions(rs: Seq<RegionObject>, id: Seq<char>) -> Option<Seq<DeferDecl>>
    decreases rs,
{
    if rs.len() == 0 {
        None
    } else {
        match spec_defers_regions(rs.drop_last(), id) {
            Some(v) => Some(v),
            None => spec_defers_states(rs.last().states@, id),
        }
    }
}

pub open spec fn spec_defers_states(ss: Seq<StateNode>, id: Seq<char>) -> Option<Seq<DeferDecl>>
    decreases ss,
{
    if ss.len() == 0 {
        None
    } else {
        match spec_defers_states(ss.drop_last(), id) {
            Some(v) => Some(v),
            None => spec_defers_node(ss.last(), id),
        }
    }
}

proof fn lemma_defers_regions_prefix(rs: Seq<RegionObject>, k: int, id: Seq<char>)
    requires
        0 <= k <= rs.len(),
        spec_defers_regions(rs.take(k), id) is Some,
    ensures
        spec_defers_regions(rs, id) == spec_defers_regions(rs.take(k), id),
    decreases rs.len(),
{
    if k < rs.len() {
        assert(rs.drop_last().take(k) =~= rs.take(k));
        lemma_defers_regions_prefix(rs.drop_last(), k, id);
    } else {
        assert(rs.take(k) =~= rs);
    }
}

proof fn lemma_defers_states_prefix(ss: Seq<StateNode>, k: int, id: Seq<char>)
    requires
        0 <= k <= ss.len(),
        spec_defers_states(ss.take(k), id) is Some,
    ensures
        spec_defers_states(ss, id) == spec_defers_states(ss.take(k), id),
    decreases ss.len(),
{
    if k < ss.len() {
        assert(ss.drop_last().take(k) =~= ss.take(k));
        lemma_defers_states_prefix(ss.drop_last(), k, id);
    } else {
        assert(ss.take(k) =~= ss);
    }
}

fn defers_node<'a>(s: &'a StateNode, id: &str) -> (r: Option<&'a Vec<DeferDecl>>)
    ensures
        match spec_defers_node(*s, id@) {
            Some(v) => r matches Some(x) && x@ == v,
            None => r is None,
        },
    decreases s,
{
    match s {
        StateNode::Simple(x) => if str_eq(x.id.as_str(), id) { Some(&x.defers) } else { None },
        StateNode::Composite(c) => if str_eq(c.id.as_str(), id) { Some(&c.defers) } else { defers_regions(&c.regions, id) },
        StateNode::Parallel(p) => if str_eq(p.id.as_str(), id) { Some(&p.defers) } else { defers_regions(&p.regions, id) },
        _ => None,
    }
}

fn defers_regions<'a>(rs: &'a Vec<RegionObject>, id: &str) -> (r: Option<&'a Vec<DeferDecl>>)
    ensures
        match spec_defers_regions(rs@, id@) {
            Some(v) => r matches Some(x) && x@ == v,
            None => r is None,
        },
    decreases rs,
{
    let mut i: usize = 0;
    while i < rs.len()
        invariant
            i <= rs.len(),
            spec_defers_regions(rs@.take(i as int), id@) is None,
        decreases rs.len() - i,
    {
        assert(rs@.take(i + 1).drop_last() =~= rs@.take(i as int));
        let hit = defers_states(&rs[i].states, id);
        if hit.is_some() {
            proof {
                lemma_defers_regions_prefix(rs@, i + 1, id@);
            }
            return hit;
        }
        i += 1;
    }
    assert(rs@.take(i as int) =~= rs@);
    None
}

pub(crate) fn defers_states<'a>(ss: &'a Vec<StateNode>, id: &str) -> (r: Option<&'a Vec<DeferDecl>>)
    ensures
        match spec_defers_states(ss@, id@) {
            Some(v) => r matches Some(x) && x@ == v,
            None => r is None,
        },
    decreases ss,
{
    let mut i: usize = 0;
    while i < ss.len()
        invariant
            i <= ss.len(),
            spec_defers_states(ss@.take(i as int), id@) is None,
        decreases ss.len() - i,
    {
        assert(ss@.take(i + 1).drop_last() =~= ss@.take(i as int));
        let hit = defers_node(&ss[i], id);
        if hit.is_some() {
            proof {
                lemma_defers_states_prefix(ss@, i + 1, id@);
            }
            return hit;
        }
        i += 1;
    }
    assert(ss@.take(i as int) =~= ss@);
    None
}

/// The run-time helpers of deferral for type prefix `p` and macro prefix
/// `m`: the active-configuration test, the defer buffer push, the queue
/// front-insert and the release of no-longer-deferred events.
pub open spec fn spec_defer_runtime(p: Seq<char>, m: Seq<char>) -> Seq<char> {
    "/* True iff some state in the current active configuration defers\n * `event_id` (the active leaves plus all of their ancestors via the\n * parent table). */\nstatic bool "@
    + p
    + "_active_config_defers("@
    + p
    + "_t *m, "@
    + p
    + "_EventId_t event_id) {\n    if ((unsigned)event_id >= 32u) return false; /* mask is 32-bit */\n    uint32_t bit = (uint32_t)1u << (unsigned)event_id;\n    for (uint8_t r = 0; r < m->_active_count; r++) {\n        "@
    + p
    + "_StateId_t s = m->_active[r];\n        while (1) {\n            if ("@
    + p
    + "_defer_table[s] & bit) return true;\n            if (s == "@
    + m
    + "_STATE_ROOT) break;\n            s = "@
    + p
    + "_parent_table[s];\n        }\n    }\n    return false;\n}\n\n/* Hold an unconsumed-but-deferred event. Overflow honours the same\n * policy as the main queue: assert, or drop-newest. */\nstatic void "@
    + p
    + "_defer_push("@
    + p
    + "_t *m, const "@
    + p
    + "_Event_t *ev) {\n    if (m->_deferred_count >= "@
    + m
    + "_DEFER_CAPACITY) {\n#if "@
    + m
    + "_QUEUE_OVERFLOW == FSM_QUEUE_ASSERT\n        FSM_ASSERT(0);\n#else\n        return; /* DROP_NEWEST: the deferred event is dropped */\n#endif\n    }\n    m->_deferred[m->_deferred_count++] = *ev;\n}\n\n/* Front-insert into the main ring queue (released deferred events,\n * `raise`, and completion events go to the head). Never evicts the head;\n * a full queue on a front-insert is a hard overflow because dropping the\n * head would violate the internal-event ordering invariant. */\nstatic void "@
    + p
    + "_queue_push_front("@
    + p
    + "_t *m, const "@
    + p
    + "_Event_t *ev) {\n    if (m->_queue_count >= "@
    + m
    + "_QUEUE_CAPACITY) {\n        FSM_ASSERT(0);\n        return;\n    }\n    m->_queue_head = (uint8_t)((m->_queue_head + "@
    + m
    + "_QUEUE_CAPACITY - 1u)\n                               & ("@
    + m
    + "_QUEUE_CAPACITY - 1u));\n    m->_queue[m->_queue_head] = *ev;\n    m->_queue_count++;\n}\n\n/* After a configuration change, release every deferred event no longer\n * covered by an active deferring state to the FRONT of the main queue,\n * in FIFO order (the order they were deferred). An event still deferred\n * by a state that remains active is kept (compacted down), NOT released,\n * so it is not immediately re-deferred / churned.\n *\n * FIFO-to-front: iterate the held buffer back-to-front and front-insert\n * each released event, so the earliest-deferred ends up at the very head\n * (queue becomes [d0, d1, ..., <prior queue>]). */\nstatic void "@
    + p
    + "_release_deferred("@
    + p
    + "_t *m) {\n    if (m->_deferred_count == 0u) return;\n    /* Partition in place: keep[] (still deferred) front, release order\n     * captured separately. Both preserve relative (FIFO) order. */\n    "@
    + p
    + "_Event_t kept["@
    + m
    + "_DEFER_CAPACITY];\n    uint8_t kept_n = 0;\n    /* First pass front-to-back: emit releases oldest-first by buffering\n     * their indices; simplest correct construction is two ordered passes. */\n    for (uint8_t i = 0; i < m->_deferred_count; i++) {\n        "@
    + p
    + "_EventId_t eid = m->_deferred[i].id;\n        if ("@
    + p
    + "_active_config_defers(m, eid)) {\n            kept[kept_n++] = m->_deferred[i];\n        }\n    }\n    /* Release pass back-to-front so front-insert yields oldest-at-head. */\n    for (int16_t i = (int16_t)m->_deferred_count - 1; i >= 0; i--) {\n        "@
    + p
    + "_EventId_t eid = m->_deferred[(uint8_t)i].id;\n        if (!"@
    + p
    + "_active_config_defers(m, eid)) {\n            "@
    + p
    + "_queue_push_front(m, &m->_deferred[(uint8_t)i]);\n        }\n    }\n    /* Compact the held buffer down to the kept set. */\n    for (uint8_t i = 0; i < kept_n; i++) {\n        m->_deferred[i] = kept[i];\n    }\n    m->_deferred_count = kept_n;\n}\n"@
}

/// The deferral run-time helpers of the machine.
pub fn emit_defer_runtime(ctx: &MachineEmitCtx<'_>) -> (r: String)
    ensures
        r@ == spec_defer_runtime(ctx.machine.name@, spec_c_ident(ctx.machine.name@)),
{
    let p = ctx.type_prefix();
    let mstr = ctx.macro_prefix();
    let m = mstr.as_str();
    let mut s = "/* True iff some state in the current active configuration defers\n * `event_id` (the active leaves plus all of their ancestors via the\n * parent table). */\nstatic bool ".to_owned();
    s.append(p);
    s.append("_active_config_defers(");
    s.append(p);
    s.append("_t *m, ");
    s.append(p);
    s.append("_EventId_t event_id) {\n    if ((unsigned)event_id >= 32u) return false; /* mask is 32-bit */\n    uint32_t bit = (uint32_t)1u << (unsigned)event_id;\n    for (uint8_t r = 0; r < m->_active_count; r++) {\n        ");
    s.append(p);
    s.append("_StateId_t s = m->_active[r];\n        while (1) {\n            if (");
    s.append(p);
    s.append("_defer_table[s] & bit) return true;\n            if (s == ");
    s.append(m);
    s.append("_STATE_ROOT) break;\n            s = ");
    s.append(p);
    s.append("_parent_table[s];\n        }\n    }\n    return false;\n}\n\n/* Hold an unconsumed-but-deferred event. Overflow honours the same\n * policy as the main queue: assert, or drop-newest. */\nstatic void ");
    s.append(p);
    s.append("_defer_push(");
    s.append(p);
    s.append("_t *m, const ");
    s.append(p);
    s.append("_Event_t *ev) {\n    if (m->_deferred_count >= ");
    s.append(m);
    s.append("_DEFER_CAPACITY) {\n#if ");
    s.append(m);
    s.append("_QUEUE_OVERFLOW == FSM_QUEUE_ASSERT\n        FSM_ASSERT(0);\n#else\n        return; /* DROP_NEWEST: the deferred event is dropped */\n#endif\n    }\n    m->_deferred[m->_deferred_count++] = *ev;\n}\n\n/* Front-insert into the main ring queue (released deferred events,\n * `raise`, and completion events go to the head). Never evicts the head;\n * a full queue on a front-insert is a hard overflow because dropping the\n * head would violate the internal-event ordering invariant. */\nstatic void ");
    s.append(p);
    s.append("_queue_push_front(");
    s.append(p);
    s.append("_t *m, const ");
    s.append(p);
    s.append("_Event_t *ev) {\n    if (m->_queue_count >= ");
    s.append(m);
    s.append("_QUEUE_CAPACITY) {\n        FSM_ASSERT(0);\n        return;\n    }\n    m->_queue_head = (uint8_t)((m->_queue_head + ");
    s.append(m);
    s.append("_QUEUE_CAPACITY - 1u)\n                               & (");
    s.append(m);
    s.append("_QUEUE_CAPACITY - 1u));\n    m->_queue[m->_queue_head] = *ev;\n    m->_queue_count++;\n}\n\n/* After a configuration change, release every deferred event no longer\n * covered by an active deferring state to the FRONT of the main queue,\n * in FIFO order (the order they were deferred). An event still deferred\n * by a state that remains active is kept (compacted down), NOT released,\n * so it is not immediately re-deferred / churned.\n *\n * FIFO-to-front: iterate the held buffer back-to-front and front-insert\n * each released event, so the earliest-deferred ends up at the very head\n * (queue becomes [d0, d1, ..., <prior queue>]). */\nstatic void ");
    s.append(p);
    s.append("_release_deferred(");
    s.append(p);
    s.append("_t *m) {\n    if (m->_deferred_count == 0u) return;\n    /* Partition in place: keep[] (still deferred) front, release order\n     * captured separately. Both preserve relative (FIFO) order. */\n    ");
    s.append(p);
    s.append("_Event_t kept[");
    s.append(m);
    s.append("_DEFER_CAPACITY];\n    uint8_t kept_n = 0;\n    /* First pass front-to-back: emit releases oldest-first by buffering\n     * their indices; simplest correct construction is two ordered passes. */\n    for (uint8_t i = 0; i < m->_deferred_count; i++) {\n        ");
    s.append(p);
    s.append("_EventId_t eid = m->_deferred[i].id;\n        if (");
    s.append(p);
    s.append("_active_config_defers(m, eid)) {\n            kept[kept_n++] = m->_deferred[i];\n        }\n    }\n    /* Release pass back-to-front so front-insert yields oldest-at-head. */\n    for (int16_t i = (int16_t)m->_deferred_count - 1; i >= 0; i--) {\n        ");
    s.append(p);
    s.append("_EventId_t eid = m->_deferred[(uint8_t)i].id;\n        if (!");
    s.append(p);
    s.append("_active_config_defers(m, eid)) {\n            ");
    s.append(p);
    s.append("_queue_push_front(m, &m->_deferred[(uint8_t)i]);\n        }\n    }\n    /* Compact the held buffer down to the kept set. */\n    for (uint8_t i = 0; i < kept_n; i++) {\n        m->_deferred[i] = kept[i];\n    }\n    m->_deferred_count = kept_n;\n}\n");
    s
}


/// Whether a state tree declares any deferral.
pub open spec fn spec_has_defer_node(s: StateNode) -> bool
    decreases s,
{
    match s {
        StateNode::Simple(x) => x.defers@.len() > 0,
        StateNode::Composite(c) => c.defers@.len() > 0 || spec_has_defer_regions(c.regions@),
        StateNode::Parallel(p) => p.defers@.len() > 0 || spec_has_defer_regions(p.regions@),
        _ => false,
    }
}

pub open spec fn spec_has_defer_regions(rs: Seq<RegionObject>) -> bool
    decreases rs,
{
    rs.len() > 0 && (spec_has_defer_regions(rs.drop_last()) || spec_has_defer_states(rs.last().states@))
}

pub open spec fn spec_has_defer_states(ss: Seq<StateNode>) -> bool
    decreases ss,
{
    ss.len() > 0 && (spec_has_defer_states(ss.drop_last()) || spec_has_defer_node(ss.last()))
}

fn has_defer_node(s: &StateNode) -> (r: bool)
    ensures
        r == spec_has_defer_node(*s),
    decreases s,
{
    match s {
        StateNode::Simple(x) => x.defers.len() > 0,
        StateNode::Composite(c) => c.defers.len() > 0 || has_defer_regions(&c.regions),
        StateNode::Parallel(p) => p.defers.len() > 0 || has_defer_regions(&p.regions),
        _ => false,
    }
}

fn has_defer_regions(rs: &Vec<RegionObject>) -> (r: bool)
    ensures
        r == spec_has_defer_regions(rs@),
    decreases rs,
{
    let mut i: usize = 0;
    while i < rs.len()
        invariant
            i <= rs.len(),
            !spec_has_defer_regions(rs@.take(i as int)),
        decreases rs.len() - i,
    {
        assert(rs@.take(i + 1).drop_last() =~= rs@.take(i as int));
        if has_defer_states(&rs[i].states) {
            proof {
                lemma_has_defer_regions_mono(rs@, i + 1);
            }
            return true;
        }
        i += 1;
    }
    assert(rs@.take(i as int) =~= rs@);
    false
}

proof fn lemma_has_defer_regions_mono(rs: Seq<RegionObject>, k: int)
    requires
        0 <= k <= rs.len(),
        spec_has_defer_regions(rs.take(k)),
    ensures
        spec_has_defer_regions(rs),
    decreases rs.len(),
{
    if k < rs.len() {
        assert(rs.drop_last().take(k) =~= rs.take(k));
        lemma_has_defer_regions_mono(rs.drop_last(), k);
    } else {
        assert(rs.take(k) =~= rs);
    }
}

proof fn lemma_has_defer_states_mono(ss: Seq<StateNode>, k: int)
    requires
        0 <= k <= ss.len(),
        spec_has_defer_states(ss.take(k)),
    ensures
        spec_has_defer_states(ss),
    decreases ss.len(),
{
    if k < ss.len() {
        assert(ss.drop_last().take(k) =~= ss.take(k));
        lemma_has_defer_states_mono(ss.drop_last(), k);
    } else {
        assert(ss.take(k) =~= ss);
    }
}

fn has_defer_states(ss: &Vec<StateNode>) -> (r: bool)
    ensures
        r == spec_has_defer_states(ss@),
    decreases ss,
{
    let mut i: usize = 0;
    while i < ss.len()
        invariant
            i <= ss.len(),
            !spec_has_defer_states(ss@.take(i as int)),
        decreases ss.len() - i,
    {
        assert(ss@.take(i + 1).drop_last() =~= ss@.take(i as int));
        if has_defer_node(&ss[i]) {
            proof {
                lemma_has_defer_states_mono(ss@, i + 1);
            }
            return true;
        }
        i += 1;
    }
    assert(ss@.take(i as int) =~= ss@);
    false
}

/// Whether some state of the machine defers an event.
pub fn machine_has_defer(ctx: &MachineEmitCtx<'_>) -> (r: bool)
    ensures
        r == spec_has_defer_states(ctx.machine.root.states@),
{
    has_defer_states(&ctx.machine.root.states)
}

/// The position of the first event with IR id `id`.
pub open spec fn spec_event_index(evs: Seq<EventObject>, id: Seq<char>) -> Option<int>
    decreases evs.len(),
{
    if evs.len() == 0 {
        None
    } else {
        match spec_event_index(evs.drop_last(), id) {
            Some(k) => Some(k),
            None => if evs.last().id@ == id { Some(evs.len() - 1) } else { None },
        }
    }
}

proof fn lemma_event_index_prefix(evs: Seq<EventObject>, k: int, id: Seq<char>)
    requires
        0 <= k <= evs.len(),
    ensures
        spec_event_index(evs.take(k), id) is Some ==> spec_event_index(evs, id) == spec_event_index(evs.take(k), id),
        spec_event_index(evs, id) matches Some(i) ==> 0 <= i < evs.len(),
    decreases evs.len(),
{
    if evs.len() > 0 {
        if k < evs.len() {
            assert(evs.drop_last().take(k) =~= evs.take(k));
            lemma_event_index_prefix(evs.drop_last(), k, id);
        } else {
            assert(evs.take(k) =~= evs);
            lemma_event_index_prefix(evs.drop_last(), evs.len() - 1, id);
        }
    }
}

pub(crate) fn event_index(evs: &Vec<EventObject>, id: &str) -> (r: Option<usize>)
    ensures
        match spec_event_index(evs@, id@) {
            Some(k) => r == Some(k as usize) && 0 <= k < evs@.len(),
            None => r is None,
        },
{
    proof {
        lemma_event_index_prefix(evs@, 0, id@);
    }
    let mut i: usize = 0;
    while i < evs.len()
        invariant
            i <= evs.len(),
            spec_event_index(evs@.take(i as int), id@) is None,
        decreases evs.len() - i,
    {
        assert(evs@.take(i + 1).drop_last() =~= evs@.take(i as int));
        assert(evs@.take(i + 1).last() == evs@[i as int]);
        if str_eq(evs[i].id.as_str(), id) {
            proof {
                lemma_event_index_prefix(evs@, i + 1, id@);
            }
            return Some(i);
        }
        i += 1;
    }
    assert(evs@.take(i as int) =~= evs@);
    None
}

/// The defer bit of one deferral: the bit of its event's position (none
/// for an unknown event).
pub open spec fn spec_defer_bit(evs: Seq<EventObject>, d: DeferDecl) -> u32 {
    match spec_event_index(evs, d.event_id@) {
        Some(k) => (1u32 << (k as u32)) as u32,
        None => 0,
    }
}

/// The defer mask of a deferral list.
pub open spec fn spec_defer_mask(evs: Seq<EventObject>, ds: Seq<DeferDecl>) -> u32
    decreases ds.len(),
{
    if ds.len() == 0 {
        0
    } else {
        spec_defer_mask(evs, ds.drop_last()) | spec_defer_bit(evs, ds.last())
    }
}

/// Every deferred event's position fits the 32-bit mask.
pub open spec fn spec_defers_fit(evs: Seq<EventObject>, ds: Seq<DeferDecl>) -> bool {
    forall|i: int| 0 <= i < ds.len() ==> ((#[trigger] spec_event_index(evs, ds[i].event_id@)) matches Some(k) ==> k < 32)
}

/// The deferrals declared by the state with IR id `id` (none when it
/// declares none or is not found).
pub open spec fn spec_state_defers(ctx: CtxView, id: Seq<char>) -> Seq<DeferDecl> {
    match spec_defers_states(ctx.machine.root.states@, id) {
        Some(ds) => ds,
        None => Seq::empty(),
    }
}

/// Every state's deferred events fit the 32-bit mask.
pub open spec fn spec_masks_fit(ctx: CtxView) -> bool {
    forall|i: int| 1 <= i < ctx.index@.len()
        ==> spec_defers_fit(ctx.machine.events@, #[trigger] spec_state_defers(ctx, ctx.index@[i].ir_id))
}

fn defer_mask(evs: &Vec<EventObject>, ds: &Vec<DeferDecl>) -> (r: u32)
    requires
        spec_defers_fit(evs@, ds@),
    ensures
        r == spec_defer_mask(evs@, ds@),
{
    let mut mask: u32 = 0;
    let mut i: usize = 0;
    while i < ds.len()
        invariant
            spec_defers_fit(evs@, ds@),
            i <= ds.len(),
            mask == spec_defer_mask(evs@, ds@.take(i as int)),
        decreases ds.len() - i,
    {
        assert(ds@.take(i + 1).drop_last() =~= ds@.take(i as int));
        assert(ds@.take(i + 1).last() == ds@[i as int]);
        let bit: u32 = match event_index(evs, ds[i].event_id.as_str()) {
            Some(k) => {
                assert(spec_event_index(evs@, ds@[i as int].event_id@) matches Some(kk) ==> kk < 32);
                let kk: u32 = k as u32;
                1u32 << kk
            },
            None => 0,
        };
        mask = mask | bit;
        i += 1;
    }
    assert(ds@.take(i as int) =~= ds@);
    mask
}

/// The two-digit-per-byte lower-case hex rendering of `v` in `n` digits.
pub open spec fn spec_hex(v: nat, n: nat) -> Seq<char>
    decreases n,
{
    if n == 0 {
        Seq::empty()
    } else {
        spec_hex(v / 16, (n - 1) as nat).push(spec_hex_char(v % 16))
    }
}

pub open spec fn spec_hex_char(d: nat) -> char {
    if d < 10 {
        ((d + 48) as u8) as char
    } else {
        ((d + 87) as u8) as char
    }
}

fn push_hex(s: &mut String, v: u32, n: u32)
    ensures
        final(s)@ == old(s)@ + spec_hex(v as nat, n as nat),
    decreases n,
{
    if n == 0 {
        assert(final(s)@ =~= old(s)@ + spec_hex(v as nat, n as nat));
        return;
    }
    push_hex(s, v / 16, n - 1);
    let d: u32 = v % 16;
    let c: char = if d < 10 { ((d + 48) as u8) as char } else { ((d + 87) as u8) as char };
    push_char(s, c);
    assert(final(s)@ =~= old(s)@ + spec_hex(v as nat, n as nat));
}

/// The mask row of record `i`: present when it declares deferrals.
pub open spec fn spec_defer_row(ctx: CtxView, i: int) -> Seq<char> {
    let rec = ctx.index@[i];
    let ds = spec_state_defers(ctx, rec.ir_id);
    if ds.len() == 0 {
        Seq::empty()
    } else {
        "    ["@ + spec_c_ident(ctx.machine.name@) + "_STATE_"@ + rec.c_name + "] = 0x"@
            + spec_hex(spec_defer_mask(ctx.machine.events@, ds) as nat, 8) + "u, /* "@ + rec.dsl_name + " */\n"@
    }
}

pub open spec fn spec_defer_rows(ctx: CtxView, lo: int, n: int) -> Seq<char>
    decreases n - lo,
{
    if n <= lo {
        Seq::empty()
    } else {
        spec_defer_rows(ctx, lo, n - 1) + spec_defer_row(ctx, n - 1)
    }
}

/// The per-state defer mask table: bit N of a state's mask is set when it
/// defers the event at position N; the root and non-deferring states are 0.
pub open spec fn spec_defer_table(ctx: CtxView) -> Seq<char> {
    let p = ctx.machine.name@;
    "/* Per-state event defer mask. Bit N = event id N is deferred\n * by this state. Designated initialisers default non-deferring states to 0. */\n"@
        + "static const uint32_t "@ + p + "_defer_table["@ + spec_c_ident(p) + "_STATE__COUNT] = {\n    0u,\n"@
        + spec_defer_rows(ctx, 1, ctx.index@.len() as int) + "};\n"@
}

/// The defer mask table of the machine.
pub fn emit_defer_table(ctx: &MachineEmitCtx<'_>) -> (r: String)
    requires
        ctx.index.wf(),
        spec_masks_fit(ctx@),
    ensures
        r@ == spec_defer_table(ctx@),
{
    let p = ctx.type_prefix();
    let mstr = ctx.macro_prefix();
    let m = mstr.as_str();
    let n = ctx.index.records.len();
    let mut rows = String::new();
    let mut i: usize = 1;
    while i < n
        invariant
            ctx.index.wf(),
            spec_masks_fit(ctx@),
            m@ == spec_c_ident(ctx.machine.name@),
            n == ctx.index@.len(),
            1 <= i <= n,
            rows@ == spec_defer_rows(ctx@, 1, i as int),
        decreases n - i,
    {
        let rec = ctx.index.get(i as u8);
        let empty: Vec<DeferDecl> = Vec::new();
        let ds: &Vec<DeferDecl> = match defers_states(&ctx.machine.root.states, rec.ir_id.as_str()) {
            Some(d) => d,
            None => &empty,
        };
        assert(ds@ == spec_state_defers(ctx@, ctx.index@[i as int].ir_id));
        let mut b = String::new();
        if ds.len() > 0 {
            assert(spec_defers_fit(ctx.machine.events@, spec_state_defers(ctx@, ctx.index@[i as int].ir_id)));
            let mask = defer_mask(&ctx.machine.events, ds);
            b.append("    [");
            b.append(m);
            b.append("_STATE_");
            b.append(rec.c_name.as_str());
            b.append("] = 0x");
            push_hex(&mut b, mask, 8);
            b.append("u, /* ");
            b.append(rec.dsl_name.as_str());
            b.append(" */\n");
        }
        assert(b@ =~= spec_defer_row(ctx@, i as int));
        rows.append(b.as_str());
        i += 1;
    }
    let mut s = "/* Per-state event defer mask. Bit N = event id N is deferred\n * by this state. Designated initialisers default non-deferring states to 0. */\n".to_owned();
    s.append("static const uint32_t ");
    s.append(p);
    s.append("_defer_table[");
    s.append(m);
    s.append("_STATE__COUNT] = {\n    0u,\n");
    s.append(rows.as_str());
    s.append("};\n");
    s
}

} // verus!
