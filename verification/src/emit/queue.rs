//! The event queue: a fixed-capacity ring buffer indexed with a bitwise-AND
//! modulo, which is why its capacity must be a power of two.

use vstd::prelude::*;

use crate::state_index::spec_c_ident;
use crate::text::{lemma_contains_self, lemma_contains_within, spec_contains_str, spec_starts_with};

use super::MachineEmitCtx;

verus! {

/// The queue helpers of machine type prefix `p` and macro prefix `m`:
/// the internal push, `post` (optionally ISR-safe) and `dequeue`.
pub open spec fn spec_queue(p: Seq<char>, m: Seq<char>) -> Seq<char> {
    "static void "@ + p + "_queue_push("@ + p + "_t *m, const "@ + p + "_Event_t *ev) {\n"@
    + "    if (m->_queue_count >= "@ + m + "_QUEUE_CAPACITY) {\n"@
    + "#if "@ + m + "_QUEUE_OVERFLOW == FSM_QUEUE_ASSERT\n"@
    + "        FSM_ASSERT(0);\n#else\n        return; /* DROP_NEWEST */\n#endif\n    }\n"@
    + "    m->_queue[m->_queue_tail] = *ev;\n"@
    + "    m->_queue_tail = (uint8_t)((m->_queue_tail + 1u) & ("@ + m + "_QUEUE_CAPACITY - 1u));\n"@
    + "    m->_queue_count++;\n}\n\n"@
    + "void "@ + p + "_post("@ + p + "_t *m, const "@ + p + "_Event_t *ev) {\n"@
    + "#ifdef "@ + m + "_QUEUE_ISR_SAFE\n    FSM_ENTER_CRITICAL();\n#endif\n"@
    + "    "@ + p + "_queue_push(m, ev);\n"@
    + "#ifdef "@ + m + "_QUEUE_ISR_SAFE\n    FSM_EXIT_CRITICAL();\n#endif\n}\n\n"@
    + "bool "@ + p + "_dequeue("@ + p + "_t *m, "@ + p + "_Event_t *out) {\n"@
    + "    if (m->_queue_count == 0u) return false;\n"@
    + "    *out = m->_queue[m->_queue_head];\n"@
    + "    m->_queue_head = (uint8_t)((m->_queue_head + 1u) & ("@ + m + "_QUEUE_CAPACITY - 1u));\n"@
    + "    m->_queue_count--;\n    return true;\n}\n"@
}

/// The queue helpers of the machine: `<M>_queue_push`, `<M>_post` and
/// `<M>_dequeue`.
pub fn emit_queue(ctx: &MachineEmitCtx<'_>) -> (r: String)
    ensures
        r@ == spec_queue(ctx.machine.name@, spec_c_ident(ctx.machine.name@)),
{
    let p = ctx.type_prefix();
    let m = ctx.macro_prefix();
    let m = m.as_str();
    let mut s = "static void ".to_owned();
    s.append(p); s.append("_queue_push("); s.append(p); s.append("_t *m, const "); s.append(p);
    s.append("_Event_t *ev) {\n");
    s.append("    if (m->_queue_count >= "); s.append(m); s.append("_QUEUE_CAPACITY) {\n");
    s.append("#if "); s.append(m); s.append("_QUEUE_OVERFLOW == FSM_QUEUE_ASSERT\n");
    s.append("        FSM_ASSERT(0);\n#else\n        return; /* DROP_NEWEST */\n#endif\n    }\n");
    s.append("    m->_queue[m->_queue_tail] = *ev;\n");
    s.append("    m->_queue_tail = (uint8_t)((m->_queue_tail + 1u) & ("); s.append(m);
    s.append("_QUEUE_CAPACITY - 1u));\n");
    s.append("    m->_queue_count++;\n}\n\n");
    s.append("void "); s.append(p); s.append("_post("); s.append(p); s.append("_t *m, const "); s.append(p);
    s.append("_Event_t *ev) {\n");
    s.append("#ifdef "); s.append(m); s.append("_QUEUE_ISR_SAFE\n    FSM_ENTER_CRITICAL();\n#endif\n");
    s.append("    "); s.append(p); s.append("_queue_push(m, ev);\n");
    s.append("#ifdef "); s.append(m); s.append("_QUEUE_ISR_SAFE\n    FSM_EXIT_CRITICAL();\n#endif\n}\n\n");
    s.append("bool "); s.append(p); s.append("_dequeue("); s.append(p); s.append("_t *m, "); s.append(p);
    s.append("_Event_t *out) {\n");
    s.append("    if (m->_queue_count == 0u) return false;\n");
    s.append("    *out = m->_queue[m->_queue_head];\n");
    s.append("    m->_queue_head = (uint8_t)((m->_queue_head + 1u) & ("); s.append(m);
    s.append("_QUEUE_CAPACITY - 1u));\n");
    s.append("    m->_queue_count--;\n    return true;\n}\n");
    s
}


#[verifier::opaque]
spec fn push_text(p: Seq<char>, m: Seq<char>) -> Seq<char> {
    "static void "@ + p + "_queue_push("@ + p + "_t *m, const "@ + p + "_Event_t *ev) {\n"@
    + "    if (m->_queue_count >= "@ + m + "_QUEUE_CAPACITY) {\n"@
    + "#if "@ + m + "_QUEUE_OVERFLOW == FSM_QUEUE_ASSERT\n"@
    + "        FSM_ASSERT(0);\n#else\n        return; /* DROP_NEWEST */\n#endif\n    }\n"@
    + "    m->_queue[m->_queue_tail] = *ev;\n"@
    + "    m->_queue_tail = (uint8_t)((m->_queue_tail + 1u) & ("@ + m + "_QUEUE_CAPACITY - 1u));\n"@
    + "    m->_queue_count++;\n}\n\n"@
}

#[verifier::opaque]
spec fn post_text(p: Seq<char>, m: Seq<char>) -> Seq<char> {
    "void "@ + p + "_post("@ + p + "_t *m, const "@ + p + "_Event_t *ev) {\n"@
    + "#ifdef "@ + m + "_QUEUE_ISR_SAFE\n    FSM_ENTER_CRITICAL();\n#endif\n"@
    + "    "@ + p + "_queue_push(m, ev);\n"@
    + "#ifdef "@ + m + "_QUEUE_ISR_SAFE\n    FSM_EXIT_CRITICAL();\n#endif\n}\n\n"@
}

#[verifier::opaque]
spec fn dequeue_text(p: Seq<char>, m: Seq<char>) -> Seq<char> {
    "bool "@ + p + "_dequeue("@ + p + "_t *m, "@ + p + "_Event_t *out) {\n"@
    + "    if (m->_queue_count == 0u) return false;\n"@
    + "    *out = m->_queue[m->_queue_head];\n"@
    + "    m->_queue_head = (uint8_t)((m->_queue_head + 1u) & ("@ + m + "_QUEUE_CAPACITY - 1u));\n"@
    + "    m->_queue_count--;\n    return true;\n}\n"@
}

proof fn lemma_starts(a: Seq<char>, b: Seq<char>)
    ensures
        spec_starts_with(a + b, a),
{
    assert((a + b).subrange(0, a.len() as int) =~= a);
}

proof fn lemma_holds(a: Seq<char>, b: Seq<char>, c: Seq<char>)
    ensures
        spec_contains_str(a + b + c, b),
{
    lemma_contains_self(b);
    lemma_contains_within(a, b, c, b);
}

proof fn lemma_push_parts(p: Seq<char>, m: Seq<char>)
    ensures
        spec_starts_with(push_text(p, m), "static void "@ + p + "_queue_push("@),
        spec_contains_str(push_text(p, m), "    m->_queue[m->_queue_tail] = *ev;\n"@),
        spec_contains_str(push_text(p, m), "    m->_queue_count++;\n"@),
        spec_contains_str(push_text(p, m), "    m->_queue_tail = (uint8_t)((m->_queue_tail + 1u) & ("@ + m + "_QUEUE_CAPACITY - 1u));\n"@),
{
    reveal(push_text);
    let h = "static void "@ + p + "_queue_push("@;
    let a1 = h + p + "_t *m, const "@ + p + "_Event_t *ev) {\n"@
    + "    if (m->_queue_count >= "@ + m + "_QUEUE_CAPACITY) {\n"@
    + "#if "@ + m + "_QUEUE_OVERFLOW == FSM_QUEUE_ASSERT\n"@
    + "        FSM_ASSERT(0);\n#else\n        return; /* DROP_NEWEST */\n#endif\n    }\n"@;
    let store = "    m->_queue[m->_queue_tail] = *ev;\n"@;
    let adv = "    m->_queue_tail = (uint8_t)((m->_queue_tail + 1u) & ("@ + m + "_QUEUE_CAPACITY - 1u));\n"@;
    let inc = "    m->_queue_count++;\n"@;
    let end = "}\n\n"@;
    assert(push_text(p, m) =~= h + (push_text(p, m).subrange(h.len() as int, push_text(p, m).len() as int)));
    lemma_starts(h, push_text(p, m).subrange(h.len() as int, push_text(p, m).len() as int));
    reveal_strlit("    m->_queue_count++;\n}\n\n");
    reveal_strlit("    m->_queue_count++;\n");
    reveal_strlit("}\n\n");
    assert(push_text(p, m) =~= a1 + store + (adv + inc + end));
    lemma_holds(a1, store, adv + inc + end);
    assert(push_text(p, m) =~= (a1 + store + adv) + inc + end);
    lemma_holds(a1 + store + adv, inc, end);
    assert(push_text(p, m) =~= (a1 + store) + adv + (inc + end));
    lemma_holds(a1 + store, adv, inc + end);
}

proof fn lemma_dequeue_parts(p: Seq<char>, m: Seq<char>)
    ensures
        spec_starts_with(dequeue_text(p, m), "bool "@ + p + "_dequeue("@),
        spec_contains_str(dequeue_text(p, m), "    if (m->_queue_count == 0u) return false;\n"@),
        spec_contains_str(dequeue_text(p, m), "    *out = m->_queue[m->_queue_head];\n"@),
        spec_contains_str(dequeue_text(p, m), "    m->_queue_count--;\n    return true;\n}\n"@),
        spec_contains_str(dequeue_text(p, m), "    m->_queue_head = (uint8_t)((m->_queue_head + 1u) & ("@ + m + "_QUEUE_CAPACITY - 1u));\n"@),
{
    reveal(dequeue_text);
    let d = dequeue_text(p, m);
    let h = "bool "@ + p + "_dequeue("@;
    let hd = h + p + "_t *m, "@ + p + "_Event_t *out) {\n"@;
    let chk = "    if (m->_queue_count == 0u) return false;\n"@;
    let out_line = "    *out = m->_queue[m->_queue_head];\n"@;
    let adv = "    m->_queue_head = (uint8_t)((m->_queue_head + 1u) & ("@ + m + "_QUEUE_CAPACITY - 1u));\n"@;
    let tail = "    m->_queue_count--;\n    return true;\n}\n"@;
    assert(d =~= h + d.subrange(h.len() as int, d.len() as int));
    lemma_starts(h, d.subrange(h.len() as int, d.len() as int));
    assert(d =~= hd + chk + (out_line + adv + tail));
    lemma_holds(hd, chk, out_line + adv + tail);
    assert(d =~= (hd + chk) + out_line + (adv + tail));
    lemma_holds(hd + chk, out_line, adv + tail);
    assert(d =~= (hd + chk + out_line + adv) + tail + Seq::<char>::empty());
    lemma_holds(hd + chk + out_line + adv, tail, Seq::empty());
    assert(d =~= (hd + chk + out_line) + adv + tail);
    lemma_holds(hd + chk + out_line, adv, tail);
}

proof fn lemma_queue_split(p: Seq<char>, m: Seq<char>)
    ensures
        spec_queue(p, m) == push_text(p, m) + post_text(p, m) + dequeue_text(p, m),
{
    reveal(push_text);
    reveal(post_text);
    reveal(dequeue_text);
    assert(spec_queue(p, m) =~= push_text(p, m) + post_text(p, m) + dequeue_text(p, m));
}

proof fn lemma_post_starts(p: Seq<char>, m: Seq<char>)
    ensures
        spec_starts_with(post_text(p, m), "void "@ + p + "_post("@),
{
    reveal(post_text);
    let b = post_text(p, m);
    let h = "void "@ + p + "_post("@;
    assert(b =~= h + b.subrange(h.len() as int, b.len() as int));
    lemma_starts(h, b.subrange(h.len() as int, b.len() as int));
}

/// The queue helpers keep `_queue_count` equal to the number of held
/// events: the push helper, past its capacity check, stores the event at
/// the tail, advances the tail round the ring and increments the count;
/// `<M>_dequeue` returns `false` on an empty queue and otherwise hands out
/// the head event, advances the head round the ring and decrements the
/// count before returning `true`.
pub proof fn law_queue_counts_events(p: Seq<char>, m: Seq<char>)
    ensures
        exists|push: Seq<char>, post: Seq<char>, deq: Seq<char>| {
            &&& spec_queue(p, m) == push + post + deq
            &&& spec_starts_with(push, "static void "@ + p + "_queue_push("@)
            &&& spec_contains_str(push, "    m->_queue[m->_queue_tail] = *ev;\n"@)
            &&& spec_contains_str(push, "    m->_queue_count++;\n"@)
            &&& spec_contains_str(push, "    m->_queue_tail = (uint8_t)((m->_queue_tail + 1u) & ("@ + m + "_QUEUE_CAPACITY - 1u));\n"@)
            &&& spec_starts_with(post, "void "@ + p + "_post("@)
            &&& spec_starts_with(deq, "bool "@ + p + "_dequeue("@)
            &&& spec_contains_str(deq, "    if (m->_queue_count == 0u) return false;\n"@)
            &&& spec_contains_str(deq, "    *out = m->_queue[m->_queue_head];\n"@)
            &&& spec_contains_str(deq, "    m->_queue_count--;\n    return true;\n}\n"@)
            &&& spec_contains_str(deq, "    m->_queue_head = (uint8_t)((m->_queue_head + 1u) & ("@ + m + "_QUEUE_CAPACITY - 1u));\n"@)
        },
{
    let (a, b, c) = (push_text(p, m), post_text(p, m), dequeue_text(p, m));
    lemma_queue_split(p, m);
    lemma_post_starts(p, m);
    lemma_push_parts(p, m);
    lemma_dequeue_parts(p, m);

    assert(spec_contains_str(c, "    m->_queue_count--;\n    return true;\n}\n"@));
    assert(spec_contains_str(a, "    m->_queue_count++;\n"@));
}

} // verus!
