//! `<Machine>.c`: the translation unit: history helpers, the completion
//! helpers, the queue, the dispatch of the chosen strategy, the clock
//! advance, `<P>_init` and `<P>_current_state`.

use vstd::prelude::*;

use crate::config::DispatchStrategy;
use crate::ir::RegionObject;
use crate::state_index::{spec_active_at_rest, spec_c_ident, spec_lookup, StateRecordKind};
use crate::text::{push_decimal, spec_decimal};

use super::completion::{
    emit_all_regions_final_helper, emit_handle_completion, spec_all_regions_final_helper,
    spec_handle_completion,
};
use super::defer::spec_masks_fit;
use super::history::{chains_in, chains_view, emit_history_helpers, idx_in, spec_history_helpers};
use super::license::{header_block, spec_header_block};
use super::queue::{emit_queue, spec_queue};
use super::timer::{
    collect_timers, emit_advance_clock, spec_advance_clock, spec_collect_timers,
    timers_view, TimerView,
};
use super::transition::enter::{resolve_initial_chain, spec_initial_chain};
use super::transition::find::{find_composite, find_parallel, spec_find_composite, spec_find_parallel};
use super::transition::body::u8_contains;
use super::{ctx_wf, dispatch_switch, dispatch_table, EmittedFile, FileRole, CtxView, MachineEmitCtx};

verus! {

/// The views of a vector of strings.
pub open spec fn names_view(v: Seq<String>) -> Seq<Seq<char>> {
    v.map_values(|s: String| s@)
}

/// The `_timer_<stem>_remaining_ms` field stems of the machine's timers,
/// in document order: exactly the stems the clock and the transitions
/// address.
pub open spec fn spec_timer_names(ctx: CtxView) -> Seq<Seq<char>> {
    spec_collect_timers(ctx).map_values(|t: TimerView| t.field_name)
}

/// The `_timer_<stem>_remaining_ms` field stems of the machine's timers,
/// in document order, as the timer collection names them.
pub fn collect_timer_names(ctx: &MachineEmitCtx<'_>) -> (r: Vec<String>)
    requires
        ctx.index.wf(),
    ensures
        names_view(r@) == spec_timer_names(ctx@),
{
    let ts = collect_timers(ctx);
    let mut out: Vec<String> = Vec::new();
    let mut i: usize = 0;
    while i < ts.len()
        invariant
            i <= ts.len(),
            names_view(out@) == timers_view(ts@.take(i as int)).map_values(|t: TimerView| t.field_name),
        decreases ts.len() - i,
    {
        assert(timers_view(ts@.take(i + 1)) =~= timers_view(ts@.take(i as int)).push(ts@[i as int]@));
        let mut f = String::new();
        crate::text::push_string(&mut f, &ts[i].field_name);
        assert(ts@[i as int]@.field_name == ts@[i as int].field_name@);
        let ghost o = out@;
        out.push(f);
        assert(names_view(out@) =~= names_view(o).push(f@));
        assert(timers_view(ts@.take(i + 1)).map_values(|t: TimerView| t.field_name) =~= timers_view(
            ts@.take(i as int),
        ).map_values(|t: TimerView| t.field_name).push(ts@[i as int]@.field_name));
        i += 1;
    }
    assert(ts@.take(i as int) =~= ts@);
    out
}

// ---------------------------------------------------------------------
// The leaves entered by `<P>_init`
// ---------------------------------------------------------------------

/// The leaves at rest below state `idx`, each with the composites and
/// parallels entered on the way down (root first, the leaf excluded):
/// a simple, final or reference state is its own leaf; a composite follows
/// its first region's initial chain; a parallel follows every region's.
pub open spec fn spec_init_expand(ctx: CtxView, idx: int, anc: Seq<u8>, fuel: nat) -> Seq<(u8, Seq<u8>)>
    decreases fuel, 0int,
{
    if fuel == 0 {
        Seq::empty()
    } else {
        let rec = ctx.index@[idx];
        match rec.kind {
            StateRecordKind::Simple | StateRecordKind::Final | StateRecordKind::Submachine => seq![(idx as u8, anc)],
            StateRecordKind::Composite => match spec_find_composite(*ctx.machine, rec.ir_id) {
                Some(c) => if c.regions@.len() > 0 {
                    spec_init_region(ctx, c.regions@[0], anc.push(idx as u8), (fuel - 1) as nat)
                } else {
                    Seq::empty()
                },
                None => Seq::empty(),
            },
            StateRecordKind::Parallel => match spec_find_parallel(*ctx.machine, rec.ir_id) {
                Some(q) => spec_init_regions(ctx, q.regions@, anc.push(idx as u8), (fuel - 1) as nat),
                None => Seq::empty(),
            },
            _ => Seq::empty(),
        }
    }
}

pub open spec fn spec_init_region(ctx: CtxView, r: RegionObject, anc: Seq<u8>, fuel: nat) -> Seq<(u8, Seq<u8>)>
    decreases fuel, 1int,
{
    match spec_lookup(ctx.index@, r.initial@) {
        Some(init) => {
            let ch = spec_initial_chain(ctx, init, 32);
            if ch.len() > 0 && 0 <= ch[0] < ctx.index@.len() {
                spec_init_expand(ctx, ch[0] as int, anc, fuel)
            } else {
                Seq::empty()
            }
        },
        None => Seq::empty(),
    }
}

pub open spec fn spec_init_regions(ctx: CtxView, rs: Seq<RegionObject>, anc: Seq<u8>, fuel: nat) -> Seq<(u8, Seq<u8>)>
    decreases fuel, 2 + rs.len(),
{
    if rs.len() == 0 {
        Seq::empty()
    } else {
        spec_init_regions(ctx, rs.drop_last(), anc, fuel) + spec_init_region(ctx, rs.last(), anc, fuel)
    }
}

/// The leaves `<P>_init` enters: the expansion of the root's settled
/// initial vertex (recursion bounded by the number of records).
pub open spec fn spec_init_entries(ctx: CtxView) -> Seq<(u8, Seq<u8>)> {
    match ctx.index@[0].initial_child {
        Some(start) => {
            let ch = spec_initial_chain(ctx, start, 32);
            if ch.len() > 0 && 0 <= ch[0] < ctx.index@.len() {
                spec_init_expand(ctx, ch[0] as int, Seq::empty(), ctx.index@.len() as nat)
            } else {
                Seq::empty()
            }
        },
        None => Seq::empty(),
    }
}

fn copy_u8s(v: &Vec<u8>) -> (r: Vec<u8>)
    ensures
        r@ == v@,
{
    let mut r: Vec<u8> = Vec::new();
    let mut i: usize = 0;
    while i < v.len()
        invariant
            i <= v.len(),
            r@ == v@.take(i as int),
        decreases v.len() - i,
    {
        r.push(v[i]);
        assert(v@.take(i + 1) =~= v@.take(i as int).push(v@[i as int]));
        i += 1;
    }
    assert(v@.take(i as int) =~= v@);
    r
}

fn copy_push(v: &Vec<u8>, x: u8) -> (r: Vec<u8>)
    ensures
        r@ == v@.push(x),
{
    let mut r = copy_u8s(v);
    r.push(x);
    r
}

fn init_region(ctx: &MachineEmitCtx<'_>, r: &RegionObject, anc: &Vec<u8>, fuel: u32, out: &mut Vec<(u8, Vec<u8>)>)
    requires
        ctx.index.wf(),
        idx_in(anc@, ctx.index@.len() as int),
        chains_in(old(out)@, ctx.index@.len() as int),
    ensures
        chains_view(final(out)@) == chains_view(old(out)@) + spec_init_region(ctx@, *r, anc@, fuel as nat),
        chains_in(final(out)@, ctx.index@.len() as int),
    decreases fuel, 1int,
{
    let ghost o0 = chains_view(out@);
    match ctx.index.lookup(r.initial.as_str()) {
        Some(init) => {
            proof {
                crate::state_index::lemma_lookup_range(ctx.index@, r.initial@);
            }
            let ch = resolve_initial_chain(ctx, init);
            if ch.len() > 0 {
                init_expand(ctx, ch[0], anc, fuel, out);
            } else {
                assert(chains_view(out@) =~= o0 + spec_init_region(ctx@, *r, anc@, fuel as nat));
            }
        },
        None => {
            assert(chains_view(out@) =~= o0 + spec_init_region(ctx@, *r, anc@, fuel as nat));
        },
    }
}

fn init_regions(ctx: &MachineEmitCtx<'_>, rs: &Vec<RegionObject>, anc: &Vec<u8>, fuel: u32, out: &mut Vec<(u8, Vec<u8>)>)
    requires
        ctx.index.wf(),
        idx_in(anc@, ctx.index@.len() as int),
        chains_in(old(out)@, ctx.index@.len() as int),
    ensures
        chains_view(final(out)@) == chains_view(old(out)@) + spec_init_regions(ctx@, rs@, anc@, fuel as nat),
        chains_in(final(out)@, ctx.index@.len() as int),
    decreases fuel, 2 + rs@.len(),
{
    let ghost o0 = chains_view(out@);
    let mut i: usize = 0;
    assert(o0 + spec_init_regions(ctx@, rs@.take(0), anc@, fuel as nat) =~= o0);
    while i < rs.len()
        invariant
            ctx.index.wf(),
            idx_in(anc@, ctx.index@.len() as int),
            chains_in(out@, ctx.index@.len() as int),
            i <= rs.len(),
            chains_view(out@) == o0 + spec_init_regions(ctx@, rs@.take(i as int), anc@, fuel as nat),
        decreases rs.len() - i,
    {
        assert(rs@.take(i + 1).drop_last() =~= rs@.take(i as int));
        init_region(ctx, &rs[i], anc, fuel, out);
        assert(chains_view(out@) =~= o0 + spec_init_regions(ctx@, rs@.take(i + 1), anc@, fuel as nat));
        i += 1;
    }
    assert(rs@.take(i as int) =~= rs@);
}

fn init_expand(ctx: &MachineEmitCtx<'_>, idx: u8, anc: &Vec<u8>, fuel: u32, out: &mut Vec<(u8, Vec<u8>)>)
    requires
        ctx.index.wf(),
        (idx as int) < ctx.index@.len(),
        idx_in(anc@, ctx.index@.len() as int),
        chains_in(old(out)@, ctx.index@.len() as int),
    ensures
        chains_view(final(out)@) == chains_view(old(out)@) + spec_init_expand(ctx@, idx as int, anc@, fuel as nat),
        chains_in(final(out)@, ctx.index@.len() as int),
    decreases fuel, 0int,
{
    let ghost o0 = chains_view(out@);
    if fuel == 0 {
        assert(chains_view(out@) =~= o0 + spec_init_expand(ctx@, idx as int, anc@, fuel as nat));
        return;
    }
    let rec = ctx.index.get(idx);
    match rec.kind {
        StateRecordKind::Simple | StateRecordKind::Final | StateRecordKind::Submachine => {
            let a2 = copy_u8s(anc);
            out.push((idx, a2));
            assert(chains_view(out@) =~= o0 + spec_init_expand(ctx@, idx as int, anc@, fuel as nat));
        },
        StateRecordKind::Composite => {
            match find_composite(ctx.machine, rec.ir_id.as_str()) {
                Some(c) => {
                    if c.regions.len() > 0 {
                        let a = copy_push(anc, idx);
                        init_region(ctx, &c.regions[0], &a, fuel - 1, out);
                    } else {
                        assert(chains_view(out@) =~= o0 + spec_init_expand(ctx@, idx as int, anc@, fuel as nat));
                    }
                },
                None => {
                    assert(chains_view(out@) =~= o0 + spec_init_expand(ctx@, idx as int, anc@, fuel as nat));
                },
            }
        },
        StateRecordKind::Parallel => {
            match find_parallel(ctx.machine, rec.ir_id.as_str()) {
                Some(q) => {
                    let a = copy_push(anc, idx);
                    init_regions(ctx, &q.regions, &a, fuel - 1, out);
                },
                None => {
                    assert(chains_view(out@) =~= o0 + spec_init_expand(ctx@, idx as int, anc@, fuel as nat));
                },
            }
        },
        _ => {
            assert(chains_view(out@) =~= o0 + spec_init_expand(ctx@, idx as int, anc@, fuel as nat));
        },
    }
}

fn init_entries(ctx: &MachineEmitCtx<'_>) -> (r: Vec<(u8, Vec<u8>)>)
    requires
        ctx.index.wf(),
    ensures
        chains_view(r@) == spec_init_entries(ctx@),
        chains_in(r@, ctx.index@.len() as int),
{
    let mut out: Vec<(u8, Vec<u8>)> = Vec::new();
    assert(chains_view(out@) =~= Seq::<(u8, Seq<u8>)>::empty());
    let root = ctx.index.get(0);
    assert(ctx.index@[0].initial_child == crate::state_index::opt_u8_view(root.initial_child));
    match root.initial_child {
        Some(start) => {
            let ch = resolve_initial_chain(ctx, start);
            if ch.len() > 0 {
                let anc: Vec<u8> = Vec::new();
                let n = ctx.index.count();
                init_expand(ctx, ch[0], &anc, n as u32, &mut out);
                assert(chains_view(out@) =~= spec_init_entries(ctx@));
            } else {
                assert(chains_view(out@) =~= spec_init_entries(ctx@));
            }
        },
        None => {
            assert(chains_view(out@) =~= spec_init_entries(ctx@));
        },
    }
    out
}

// ---------------------------------------------------------------------
// The text of `<P>_init`
// ---------------------------------------------------------------------

/// The entry call of an entered state, unless it is a pseudo-state or a
/// final state.
pub open spec fn spec_entry_if(ctx: CtxView, p: Seq<char>, a: int) -> Seq<char> {
    let rec = ctx.index@[a];
    if spec_active_at_rest(rec.kind) && rec.kind != StateRecordKind::Final {
        "    "@ + p + "_entry_"@ + rec.c_name + "(m);\n"@
    } else {
        Seq::empty()
    }
}

/// The entry calls of an entry's ancestors, each state entered once over
/// the whole of `<P>_init`: `seen` holds the ancestors already entered.
pub open spec fn spec_anc_text(ctx: CtxView, p: Seq<char>, ancs: Seq<u8>, seen: Seq<u8>) -> (Seq<char>, Seq<u8>)
    decreases ancs.len(),
{
    if ancs.len() == 0 {
        (Seq::empty(), seen)
    } else {
        let (t, s) = spec_anc_text(ctx, p, ancs.drop_last(), seen);
        let a = ancs.last();
        if s.contains(a) {
            (t, s)
        } else {
            (t + spec_entry_if(ctx, p, a as int), s.push(a))
        }
    }
}

/// The slot assignment of an entered leaf, then its entry call.
pub open spec fn spec_leaf_text(ctx: CtxView, p: Seq<char>, m: Seq<char>, l: u8) -> Seq<char> {
    "    m->_active["@ + spec_decimal(ctx.layout.spec_slot(l as int) as nat) + "] = "@ + m + "_STATE_"@
        + ctx.index@[l as int].c_name + ";\n"@ + spec_entry_if(ctx, p, l as int)
}

pub open spec fn spec_entries_text(ctx: CtxView, p: Seq<char>, m: Seq<char>, es: Seq<(u8, Seq<u8>)>) -> (Seq<char>, Seq<u8>)
    decreases es.len(),
{
    if es.len() == 0 {
        (Seq::empty(), Seq::empty())
    } else {
        let (t, s) = spec_entries_text(ctx, p, m, es.drop_last());
        let e = es.last();
        let (t2, s2) = spec_anc_text(ctx, p, e.1, s);
        (t + t2 + spec_leaf_text(ctx, p, m, e.0), s2)
    }
}

/// A state is entered by `<P>_init` when it is one of the leaves or one of
/// their ancestors.
pub open spec fn spec_owned(es: Seq<(u8, Seq<u8>)>, o: int) -> bool {
    exists|k: int| 0 <= k < es.len() && #[trigger] spec_entry_owns(es[k], o)
}

/// An entry enters state `o` as its leaf or as one of its ancestors.
pub open spec fn spec_entry_owns(e: (u8, Seq<u8>), o: int) -> bool {
    e.0 as int == o || e.1.contains(o as u8)
}

/// The countdown start of every timer whose owner `<P>_init` enters.
pub open spec fn spec_timer_starts(ts: Seq<TimerView>, es: Seq<(u8, Seq<u8>)>) -> Seq<char>
    decreases ts.len(),
{
    if ts.len() == 0 {
        Seq::empty()
    } else {
        let t = ts.last();
        spec_timer_starts(ts.drop_last(), es) + if spec_owned(es, t.owner_state) {
            "    m->_timer_"@ + t.field_name + "_remaining_ms = "@ + spec_decimal(t.duration_ms as nat) + "u;\n"@
        } else {
            Seq::empty()
        }
    }
}

/// `<P>_init`: zero the instance, enter the root's initial configuration
/// (ancestors first, each once), record the number of active leaves when
/// more than one, and start the timers of the entered states.
pub open spec fn spec_init_fn(ctx: CtxView) -> Seq<char> {
    let p = ctx.machine.name@;
    let m = spec_c_ident(p);
    let es = spec_init_entries(ctx);
    "void "@ + p + "_init("@ + p + "_t *m) {\n"@ + "    memset(m, 0, sizeof(*m));\n"@
        + "    m->_active_count = 1;\n"@ + "    m->_active[0] = "@ + m + "_STATE_ROOT;\n"@
        + spec_entries_text(ctx, p, m, es).0
        + (if es.len() > 1 { "    m->_active_count = "@ + spec_decimal(es.len()) + ";\n"@ } else { Seq::empty() })
        + spec_timer_starts(spec_collect_timers(ctx), es) + "}\n"@
}

fn entry_if(ctx: &MachineEmitCtx<'_>, p: &str, a: u8) -> (r: String)
    requires
        (a as int) < ctx.index@.len(),
    ensures
        r@ == spec_entry_if(ctx@, p@, a as int),
{
    let rec = ctx.index.get(a);
    if rec.kind.is_active_at_rest() && !matches!(rec.kind, StateRecordKind::Final) {
        let mut b = "    ".to_owned();
        b.append(p);
        b.append("_entry_");
        b.append(rec.c_name.as_str());
        b.append("(m);\n");
        b
    } else {
        String::new()
    }
}

fn anc_text(ctx: &MachineEmitCtx<'_>, p: &str, ancs: &Vec<u8>, seen: &mut Vec<u8>) -> (r: String)
    requires
        idx_in(ancs@, ctx.index@.len() as int),
    ensures
        (r@, final(seen)@) == spec_anc_text(ctx@, p@, ancs@, old(seen)@),
{
    let ghost s0 = seen@;
    let mut t = String::new();
    let mut i: usize = 0;
    while i < ancs.len()
        invariant
            idx_in(ancs@, ctx.index@.len() as int),
            i <= ancs.len(),
            (t@, seen@) == spec_anc_text(ctx@, p@, ancs@.take(i as int), s0),
        decreases ancs.len() - i,
    {
        assert(ancs@.take(i + 1).drop_last() =~= ancs@.take(i as int));
        assert(ancs@.take(i + 1).last() == ancs@[i as int]);
        let a = ancs[i];
        if !u8_contains(seen, a) {
            let e = entry_if(ctx, p, a);
            t.append(e.as_str());
            seen.push(a);
        }
        i += 1;
    }
    assert(ancs@.take(i as int) =~= ancs@);
    t
}

fn leaf_text(ctx: &MachineEmitCtx<'_>, p: &str, m: &str, l: u8) -> (r: String)
    requires
        (l as int) < ctx.index@.len(),
    ensures
        r@ == spec_leaf_text(ctx@, p@, m@, l),
{
    let slot = ctx.layout.slot(l);
    let mut b = "    m->_active[".to_owned();
    push_decimal(&mut b, slot as u64);
    b.append("] = ");
    b.append(m);
    b.append("_STATE_");
    b.append(ctx.index.get(l).c_name.as_str());
    b.append(";\n");
    let e = entry_if(ctx, p, l);
    b.append(e.as_str());
    b
}

fn entries_text(ctx: &MachineEmitCtx<'_>, p: &str, m: &str, es: &Vec<(u8, Vec<u8>)>) -> (r: String)
    requires
        chains_in(es@, ctx.index@.len() as int),
    ensures
        r@ == spec_entries_text(ctx@, p@, m@, chains_view(es@)).0,
{
    let mut seen: Vec<u8> = Vec::new();
    let mut t = String::new();
    let mut i: usize = 0;
    while i < es.len()
        invariant
            chains_in(es@, ctx.index@.len() as int),
            i <= es.len(),
            (t@, seen@) == spec_entries_text(ctx@, p@, m@, chains_view(es@.take(i as int))),
        decreases es.len() - i,
    {
        assert(chains_view(es@.take(i + 1)).drop_last() =~= chains_view(es@.take(i as int)));
        assert(chains_view(es@.take(i + 1)).last() == (es@[i as int].0, es@[i as int].1@));
        let a = anc_text(ctx, p, &es[i].1, &mut seen);
        let l = leaf_text(ctx, p, m, es[i].0);
        t.append(a.as_str());
        t.append(l.as_str());
        i += 1;
    }
    assert(es@.take(i as int) =~= es@);
    t
}

fn owned(es: &Vec<(u8, Vec<u8>)>, o: u8) -> (r: bool)
    ensures
        r == spec_owned(chains_view(es@), o as int),
{
    let ghost v = chains_view(es@);
    let mut i: usize = 0;
    while i < es.len()
        invariant
            v == chains_view(es@),
            i <= es.len(),
            forall|k: int| 0 <= k < i ==> !spec_entry_owns(#[trigger] v[k], o as int),
        decreases es.len() - i,
    {
        assert(v[i as int] == (es@[i as int].0, es@[i as int].1@));
        if es[i].0 == o || u8_contains(&es[i].1, o) {
            assert(spec_entry_owns(v[i as int], o as int));
            return true;
        }
        i += 1;
    }
    false
}

fn timer_starts(ts: &Vec<super::timer::TimerEntry>, es: &Vec<(u8, Vec<u8>)>) -> (r: String)
    ensures
        r@ == spec_timer_starts(timers_view(ts@), chains_view(es@)),
{
    let mut s = String::new();
    let mut i: usize = 0;
    while i < ts.len()
        invariant
            i <= ts.len(),
            s@ == spec_timer_starts(timers_view(ts@.take(i as int)), chains_view(es@)),
        decreases ts.len() - i,
    {
        assert(timers_view(ts@.take(i + 1)).drop_last() =~= timers_view(ts@.take(i as int)));
        assert(timers_view(ts@.take(i + 1)).last() == ts@[i as int]@);
        let t = &ts[i];
        if owned(es, t.owner_state) {
            let mut b = "    m->_timer_".to_owned();
            b.append(t.field_name.as_str());
            b.append("_remaining_ms = ");
            push_decimal(&mut b, t.duration_ms as u64);
            b.append("u;\n");
            s.append(b.as_str());
        }
        i += 1;
    }
    assert(ts@.take(i as int) =~= ts@);
    s
}

fn init_fn(ctx: &MachineEmitCtx<'_>) -> (r: String)
    requires
        ctx.index.wf(),
    ensures
        r@ == spec_init_fn(ctx@),
{
    let p = ctx.type_prefix();
    let mstr = ctx.macro_prefix();
    let m = mstr.as_str();
    let es = init_entries(ctx);
    let body = entries_text(ctx, p, m, &es);
    let ts = collect_timers(ctx);
    let starts = timer_starts(&ts, &es);
    let mut s = "void ".to_owned();
    s.append(p);
    s.append("_init(");
    s.append(p);
    s.append("_t *m) {\n");
    s.append("    memset(m, 0, sizeof(*m));\n");
    s.append("    m->_active_count = 1;\n");
    s.append("    m->_active[0] = ");
    s.append(m);
    s.append("_STATE_ROOT;\n");
    s.append(body.as_str());
    if es.len() > 1 {
        let mut c = "    m->_active_count = ".to_owned();
        push_decimal(&mut c, es.len() as u64);
        c.append(";\n");
        s.append(c.as_str());
    }
    s.append(starts.as_str());
    s.append("}\n");
    s
}

/// `<P>_current_state`: the leaf in slot 0.
pub open spec fn spec_current_state_fn(p: Seq<char>) -> Seq<char> {
    p + "_StateId_t "@ + p + "_current_state(const "@ + p + "_t *m) {\n    return m->_active[0];\n}\n"@
}

fn current_state_fn(p: &str) -> (r: String)
    ensures
        r@ == spec_current_state_fn(p@),
{
    let mut s = p.to_owned();
    s.append("_StateId_t ");
    s.append(p);
    s.append("_current_state(const ");
    s.append(p);
    s.append("_t *m) {\n    return m->_active[0];\n}\n");
    s
}

/// The dispatcher of the context's strategy: `Auto` takes the switch form.
pub open spec fn spec_dispatch_of(ctx: CtxView) -> Seq<char> {
    match ctx.strategy {
        DispatchStrategy::Table => dispatch_table::spec_emit_dispatch(ctx),
        _ => dispatch_switch::spec_emit_dispatch(ctx),
    }
}

/// The includes, the helpers and the forward declarations.
#[verifier::opaque]
pub open spec fn spec_source_head(ctx: CtxView) -> Seq<char> {
    let p = ctx.machine.name@;
    "#include \""@ + p + ".h\"\n"@ + "#include \""@ + p + "_impl.h\"\n"@ + "#include <string.h> /* memset */\n\n"@
        + spec_history_helpers(ctx) + "\n"@ + spec_all_regions_final_helper(ctx) + "\n"@
        + "static void "@ + p + "_handle_completion("@ + p + "_t *m);\n"@
        + "void "@ + p + "_dispatch("@ + p + "_t *m, const "@ + p + "_Event_t *ev);\n\n"@
}

/// The queue, the dispatcher, completion, the clock, init and the current
/// state query.
#[verifier::opaque]
pub open spec fn spec_source_tail(ctx: CtxView) -> Seq<char> {
    let p = ctx.machine.name@;
    spec_queue(p, spec_c_ident(p)) + "\n"@ + spec_dispatch_of(ctx) + "\n"@ + spec_handle_completion(ctx) + "\n"@
        + spec_advance_clock(ctx) + "\n"@ + spec_init_fn(ctx) + "\n"@ + spec_current_state_fn(p)
}

/// The body of the translation unit, after the banner.
pub open spec fn spec_source_body(ctx: CtxView) -> Seq<char> {
    spec_source_head(ctx) + spec_source_tail(ctx)
}

fn source_head(ctx: &MachineEmitCtx<'_>) -> (r: String)
    requires
        ctx.index.wf(),
    ensures
        r@ == spec_source_head(ctx@),
{
    let p = ctx.type_prefix();
    let hist = emit_history_helpers(ctx);
    let finals = emit_all_regions_final_helper(ctx);
    let mut b = "#include \"".to_owned();
    b.append(p);
    b.append(".h\"\n");
    b.append("#include \"");
    b.append(p);
    b.append("_impl.h\"\n");
    b.append("#include <string.h> /* memset */\n\n");
    b.append(hist.as_str());
    b.append("\n");
    b.append(finals.as_str());
    b.append("\n");
    b.append("static void ");
    b.append(p);
    b.append("_handle_completion(");
    b.append(p);
    b.append("_t *m);\n");
    b.append("void ");
    b.append(p);
    b.append("_dispatch(");
    b.append(p);
    b.append("_t *m, const ");
    b.append(p);
    b.append("_Event_t *ev);\n\n");
    proof {
        reveal(spec_source_head);
    }
    b
}

fn source_tail(ctx: &MachineEmitCtx<'_>) -> (r: String)
    requires
        ctx_wf(ctx@),
        spec_masks_fit(ctx@),
    ensures
        r@ == spec_source_tail(ctx@),
{
    let p = ctx.type_prefix();
    let queue = emit_queue(ctx);
    let dispatch = match ctx.strategy {
        DispatchStrategy::Table => dispatch_table::emit_dispatch(ctx),
        _ => dispatch_switch::emit_dispatch(ctx),
    };
    let completion = emit_handle_completion(ctx);
    let clock = emit_advance_clock(ctx);
    let init = init_fn(ctx);
    let current = current_state_fn(p);
    let mut c = queue;
    c.append("\n");
    c.append(dispatch.as_str());
    c.append("\n");
    c.append(completion.as_str());
    c.append("\n");
    c.append(clock.as_str());
    c.append("\n");
    c.append(init.as_str());
    c.append("\n");
    c.append(current.as_str());
    proof {
        reveal(spec_source_tail);
    }
    c
}

/// The translation unit `<stem>.c`.
pub fn emit(ctx: &MachineEmitCtx<'_>) -> (f: EmittedFile)
    requires
        ctx_wf(ctx@),
        spec_masks_fit(ctx@),
    ensures
        f.path@ == ctx.machine.name@ + ".c"@,
        f.role == FileRole::Source,
        f.content@ == spec_header_block(ctx.config.license_spdx@, Some(ctx.machine.name@ + ".fsm (translation unit)"@))
            + "\n"@ + spec_source_body(ctx@),
{
    let stem = ctx.file_stem();
    let mut src = stem.to_owned();
    src.append(".fsm (translation unit)");
    let mut content = header_block(ctx.config, Some(src.as_str()));
    content.append("\n");
    let head = source_head(ctx);
    let tail = source_tail(ctx);
    content.append(head.as_str());
    content.append(tail.as_str());
    let mut path = stem.to_owned();
    path.append(".c");
    EmittedFile { path, role: FileRole::Source, content }
}

} // verus!
