//! Submachine reference states. A root-level state `X is Sub` owns a
//! value-member instance of `Sub`'s machine struct: entering `X` starts
//! the instance, events the parent does not consume are routed into it by
//! name, and the instance reaching its final state completes `X`.

use vstd::prelude::*;

use crate::ir::{EventObject, MachineObject, RegionObject, StateNode, SubmachineRef, TransitionKind, TransitionObject};
use crate::state_index::{c_ident, lemma_lookup_range, spec_c_ident, spec_lookup, StateRecordKind};
use crate::text::{push_decimal, spec_decimal, str_eq};

use super::{CtxView, MachineEmitCtx};

verus! {

/// A submachine reference state, resolved against its template and the
/// parent's state index.
pub struct SubRef<'a> {
    pub sref: &'a SubmachineRef,
    /// C name of the reference state in the parent (e.g. `CONNECTING`).
    pub parent_state_c: String,
    /// The submachine template (its own codegen unit).
    pub template: &'a MachineObject,
    /// The template's type prefix, e.g. `Connection`.
    pub sub_type: String,
    /// The template's macro prefix, e.g. `CONNECTION`.
    pub sub_macro: String,
    /// The parent struct member holding the instance: `_sub_<parent_state_c>`.
    pub member: String,
}

/// The mathematical form of a [`SubRef`].
pub struct SubRefView {
    pub sref: SubmachineRef,
    pub parent_state_c: Seq<char>,
    pub template: MachineObject,
    pub sub_type: Seq<char>,
    pub sub_macro: Seq<char>,
    pub member: Seq<char>,
}

impl<'a> View for SubRef<'a> {
    type V = SubRefView;

    open spec fn view(&self) -> SubRefView {
        SubRefView {
            sref: *self.sref,
            parent_state_c: self.parent_state_c@,
            template: *self.template,
            sub_type: self.sub_type@,
            sub_macro: self.sub_macro@,
            member: self.member@,
        }
    }
}

pub open spec fn subrefs_view(v: Seq<SubRef>) -> Seq<SubRefView> {
    v.map_values(|r: SubRef| r@)
}

/// The first machine in `ms` whose IR id is `id`.
pub open spec fn spec_find_machine(ms: Seq<MachineObject>, id: Seq<char>) -> Option<int>
    decreases ms.len(),
{
    if ms.len() == 0 {
        None
    } else {
        match spec_find_machine(ms.drop_last(), id) {
            Some(k) => Some(k),
            None => if ms.last().id@ == id { Some(ms.len() - 1) } else { None },
        }
    }
}

proof fn lemma_find_machine(ms: Seq<MachineObject>, k: int, id: Seq<char>)
    requires
        0 <= k <= ms.len(),
    ensures
        spec_find_machine(ms.take(k), id) is Some ==> spec_find_machine(ms, id) == spec_find_machine(ms.take(k), id),
        spec_find_machine(ms, id) matches Some(j) ==> 0 <= j < ms.len() && ms[j].id@ == id,
    decreases ms.len(),
{
    if ms.len() > 0 {
        if k < ms.len() {
            assert(ms.drop_last().take(k) =~= ms.take(k));
        } else {
            assert(ms.take(k) =~= ms);
        }
        lemma_find_machine(ms.drop_last(), if k < ms.len() { k } else { ms.len() - 1 }, id);
    }
}

fn find_machine(ms: &Vec<MachineObject>, id: &str) -> (r: Option<usize>)
    ensures
        match r {
            Some(k) => spec_find_machine(ms@, id@) == Some(k as int),
            None => spec_find_machine(ms@, id@) is None,
        },
{
    let mut i: usize = 0;
    while i < ms.len()
        invariant
            i <= ms.len(),
            spec_find_machine(ms@.take(i as int), id@) is None,
        decreases ms.len() - i,
    {
        assert(ms@.take(i + 1).drop_last() =~= ms@.take(i as int));
        if str_eq(ms[i].id.as_str(), id) {
            proof {
                lemma_find_machine(ms@, i + 1, id@);
            }
            return Some(i);
        }
        i += 1;
    }
    assert(ms@.take(i as int) =~= ms@);
    None
}

/// The resolved reference of `sref`, when its template is known and its
/// state was indexed.
pub open spec fn spec_sub_ref_of(ctx: CtxView, sref: SubmachineRef) -> Option<SubRefView> {
    match spec_find_machine(ctx.machine.submachines@, sref.submachine_id@) {
        None => None,
        Some(k) => match spec_lookup(ctx.index@, sref.id@) {
            None => None,
            Some(pi) => {
                let t = ctx.machine.submachines@[k];
                Some(SubRefView {
                    sref,
                    parent_state_c: ctx.index@[pi].c_name,
                    template: t,
                    sub_type: t.name@,
                    sub_macro: spec_c_ident(t.name@),
                    member: "_sub_"@ + ctx.index@[pi].c_name,
                })
            },
        },
    }
}

/// The resolved references among the sibling states `ss`, in order.
pub open spec fn spec_sub_refs_of(ctx: CtxView, ss: Seq<StateNode>) -> Seq<SubRefView>
    decreases ss.len(),
{
    if ss.len() == 0 {
        Seq::empty()
    } else {
        let prev = spec_sub_refs_of(ctx, ss.drop_last());
        match ss.last() {
            StateNode::Submachine(sr) => match spec_sub_ref_of(ctx, sr) {
                Some(v) => prev.push(v),
                None => prev,
            },
            _ => prev,
        }
    }
}

/// The submachine references of the machine: its root-level reference
/// states whose template is known, in document order.
pub open spec fn spec_collect_sub_refs(ctx: CtxView) -> Seq<SubRefView> {
    spec_sub_refs_of(ctx, ctx.machine.root.states@)
}

/// The machine's root-level submachine references, in document order.
pub fn collect_sub_refs<'a>(ctx: &MachineEmitCtx<'a>) -> (r: Vec<SubRef<'a>>)
    requires
        ctx.index.wf(),
    ensures
        subrefs_view(r@) == spec_collect_sub_refs(ctx@),
{
    let mut out: Vec<SubRef<'a>> = Vec::new();
    let ss = &ctx.machine.root.states;
    let mut i: usize = 0;
    assert(subrefs_view(out@) =~= spec_sub_refs_of(ctx@, ss@.take(0)));
    while i < ss.len()
        invariant
            ctx.index.wf(),
            ss@ == ctx.machine.root.states@,
            i <= ss.len(),
            subrefs_view(out@) == spec_sub_refs_of(ctx@, ss@.take(i as int)),
        decreases ss.len() - i,
    {
        assert(ss@.take(i + 1).drop_last() =~= ss@.take(i as int));
        let ghost o0 = subrefs_view(out@);
        if let StateNode::Submachine(sref) = &ss[i] {
            if let Some(k) = find_machine(&ctx.machine.submachines, sref.submachine_id.as_str()) {
                proof {
                    lemma_find_machine(ctx.machine.submachines@, 0, sref.submachine_id@);
                }
                if let Some(parent_idx) = ctx.index.lookup(sref.id.as_str()) {
                    proof {
                        lemma_lookup_range(ctx.index@, sref.id@);
                    }
                    let template = &ctx.machine.submachines[k];
                    let parent_state_c = ctx.index.get(parent_idx).c_name.clone();
                    let mut member = "_sub_".to_owned();
                    member.append(parent_state_c.as_str());
                    let sub_macro = c_ident(template.name.as_str());
                    let r = SubRef {
                        sref,
                        parent_state_c,
                        template,
                        sub_type: template.name.clone(),
                        sub_macro,
                        member,
                    };
                    out.push(r);
                    assert(subrefs_view(out@) =~= o0.push(r@));
                }
            }
        }
        assert(subrefs_view(out@) =~= spec_sub_refs_of(ctx@, ss@.take(i + 1)));
        i += 1;
    }
    assert(ss@.take(i as int) =~= ss@);
    out
}

/// The first reference whose state has IR id `id`.
pub open spec fn spec_first_subref(vs: Seq<SubRefView>, id: Seq<char>) -> Option<SubRefView>
    decreases vs.len(),
{
    if vs.len() == 0 {
        None
    } else {
        match spec_first_subref(vs.drop_last(), id) {
            Some(v) => Some(v),
            None => if vs.last().sref.id@ == id { Some(vs.last()) } else { None },
        }
    }
}

proof fn lemma_first_subref_prefix(vs: Seq<SubRefView>, k: int, id: Seq<char>)
    requires
        0 <= k <= vs.len(),
        spec_first_subref(vs.take(k), id) is Some,
    ensures
        spec_first_subref(vs, id) == spec_first_subref(vs.take(k), id),
    decreases vs.len(),
{
    if k < vs.len() {
        assert(vs.drop_last().take(k) =~= vs.take(k));
        lemma_first_subref_prefix(vs.drop_last(), k, id);
    } else {
        assert(vs.take(k) =~= vs);
    }
}

/// The reference of the state with IR id `state_id`, when that state is a
/// resolved submachine reference.
pub fn ref_state_member<'a>(ctx: &MachineEmitCtx<'a>, state_id: &str) -> (r: Option<SubRef<'a>>)
    requires
        ctx.index.wf(),
    ensures
        match spec_first_subref(spec_collect_sub_refs(ctx@), state_id@) {
            Some(v) => r matches Some(x) && x@ == v,
            None => r is None,
        },
{
    let mut refs = collect_sub_refs(ctx);
    let ghost vs = subrefs_view(refs@);
    let mut i: usize = 0;
    while i < refs.len()
        invariant
            i <= refs.len(),
            vs == subrefs_view(refs@),
            vs == spec_collect_sub_refs(ctx@),
            spec_first_subref(vs.take(i as int), state_id@) is None,
        decreases refs.len() - i,
    {
        assert(vs.take(i + 1).drop_last() =~= vs.take(i as int));
        assert(vs.take(i + 1).last() == refs@[i as int]@);
        if str_eq(refs[i].sref.id.as_str(), state_id) {
            proof {
                assert(spec_first_subref(vs.take(i + 1), state_id@) == Some(vs[i as int]));
                lemma_first_subref_prefix(vs, i + 1, state_id@);
            }
            let r = refs.remove(i);
            return Some(r);
        }
        i += 1;
    }
    assert(vs.take(i as int) =~= vs);
    None
}

/// The DSL name of the first final state of a state tree, depth first.
pub open spec fn spec_final_node(s: StateNode) -> Option<Seq<char>>
    decreases s,
{
    match s {
        StateNode::Final(f) => Some(f.name@),
        StateNode::Composite(c) => spec_final_regions(c.regions@),
        StateNode::Parallel(p) => spec_final_regions(p.regions@),
        _ => None,
    }
}

pub open spec fn spec_final_regions(rs: Seq<RegionObject>) -> Option<Seq<char>>
    decreases rs,
{
    if rs.len() == 0 {
        None
    } else {
        match spec_final_regions(rs.drop_last()) {
            Some(n) => Some(n),
            None => spec_final_states(rs.last().states@),
        }
    }
}

pub open spec fn spec_final_states(ss: Seq<StateNode>) -> Option<Seq<char>>
    decreases ss,
{
    if ss.len() == 0 {
        None
    } else {
        match spec_final_states(ss.drop_last()) {
            Some(n) => Some(n),
            None => spec_final_node(ss.last()),
        }
    }
}

proof fn lemma_final_regions_prefix(rs: Seq<RegionObject>, k: int)
    requires
        0 <= k <= rs.len(),
        spec_final_regions(rs.take(k)) is Some,
    ensures
        spec_final_regions(rs) == spec_final_regions(rs.take(k)),
    decreases rs.len(),
{
    if k < rs.len() {
        assert(rs.drop_last().take(k) =~= rs.take(k));
        lemma_final_regions_prefix(rs.drop_last(), k);
    } else {
        assert(rs.take(k) =~= rs);
    }
}

proof fn lemma_final_states_prefix(ss: Seq<StateNode>, k: int)
    requires
        0 <= k <= ss.len(),
        spec_final_states(ss.take(k)) is Some,
    ensures
        spec_final_states(ss) == spec_final_states(ss.take(k)),
    decreases ss.len(),
{
    if k < ss.len() {
        assert(ss.drop_last().take(k) =~= ss.take(k));
        lemma_final_states_prefix(ss.drop_last(), k);
    } else {
        assert(ss.take(k) =~= ss);
    }
}

fn find_final_node(s: &StateNode) -> (r: Option<String>)
    ensures
        match spec_final_node(*s) {
            Some(n) => r matches Some(x) && x@ == n,
            None => r is None,
        },
    decreases s,
{
    match s {
        StateNode::Final(f) => Some(f.name.clone()),
        StateNode::Composite(c) => find_final_regions(&c.regions),
        StateNode::Parallel(p) => find_final_regions(&p.regions),
        _ => None,
    }
}

fn find_final_regions(rs: &Vec<RegionObject>) -> (r: Option<String>)
    ensures
        match spec_final_regions(rs@) {
            Some(n) => r matches Some(x) && x@ == n,
            None => r is None,
        },
    decreases rs,
{
    let mut i: usize = 0;
    while i < rs.len()
        invariant
            i <= rs.len(),
            spec_final_regions(rs@.take(i as int)) is None,
        decreases rs.len() - i,
    {
        assert(rs@.take(i + 1).drop_last() =~= rs@.take(i as int));
        let hit = find_final_states(&rs[i].states);
        if hit.is_some() {
            proof {
                lemma_final_regions_prefix(rs@, i + 1);
            }
            return hit;
        }
        i += 1;
    }
    assert(rs@.take(i as int) =~= rs@);
    None
}

fn find_final_states(ss: &Vec<StateNode>) -> (r: Option<String>)
    ensures
        match spec_final_states(ss@) {
            Some(n) => r matches Some(x) && x@ == n,
            None => r is None,
        },
    decreases ss,
{
    let mut i: usize = 0;
    while i < ss.len()
        invariant
            i <= ss.len(),
            spec_final_states(ss@.take(i as int)) is None,
        decreases ss.len() - i,
    {
        assert(ss@.take(i + 1).drop_last() =~= ss@.take(i as int));
        let hit = find_final_node(&ss[i]);
        if hit.is_some() {
            proof {
                lemma_final_states_prefix(ss@, i + 1);
            }
            return hit;
        }
        i += 1;
    }
    assert(ss@.take(i as int) =~= ss@);
    None
}

/// The C name of the template's first final state, if it has one.
pub open spec fn spec_final_state_c(v: SubRefView) -> Option<Seq<char>> {
    match spec_final_states(v.template.root.states@) {
        Some(n) => Some(spec_c_ident(n)),
        None => None,
    }
}

impl<'a> SubRef<'a> {
    /// The C type of the instance member, `<Sub>_t`.
    pub fn member_type(&self) -> (r: String)
        ensures
            r@ == self.sub_type@ + "_t"@,
    {
        let mut s = self.sub_type.clone();
        s.append("_t");
        s
    }

    /// The C name of the template's final state (the first one, depth
    /// first), used to detect the instance's completion.
    pub fn final_state_c(&self) -> (r: Option<String>)
        ensures
            match spec_final_state_c(self@) {
                Some(n) => r matches Some(x) && x@ == n,
                None => r is None,
            },
    {
        match find_final_states(&self.template.root.states) {
            Some(n) => Some(c_ident(n.as_str())),
            None => None,
        }
    }
}

/// Whether the reference state declares transitions of its own.
pub fn submachine_has_dispatch_transitions(sref: &SubmachineRef) -> (r: bool)
    ensures
        r == (sref.transitions@.len() > 0),
{
    sref.transitions.len() > 0
}

/// The completion (`done ->`) transitions of a reference state, in order.
pub open spec fn spec_done_transitions(ts: Seq<TransitionObject>) -> Seq<TransitionObject>
    decreases ts.len(),
{
    if ts.len() == 0 {
        Seq::empty()
    } else if ts.last().kind == TransitionKind::Completion {
        spec_done_transitions(ts.drop_last()).push(ts.last())
    } else {
        spec_done_transitions(ts.drop_last())
    }
}

/// The completion transitions of `sref`, in declaration order.
pub fn ref_done_transitions(sref: &SubmachineRef) -> (r: Vec<&TransitionObject>)
    ensures
        r@.map_values(|t: &TransitionObject| *t) == spec_done_transitions(sref.transitions@),
{
    let ts = &sref.transitions;
    let mut out: Vec<&TransitionObject> = Vec::new();
    let mut i: usize = 0;
    while i < ts.len()
        invariant
            i <= ts.len(),
            out@.map_values(|t: &TransitionObject| *t) == spec_done_transitions(ts@.take(i as int)),
        decreases ts.len() - i,
    {
        assert(ts@.take(i + 1).drop_last() =~= ts@.take(i as int));
        let ghost o0 = out@;
        if ts[i].kind == TransitionKind::Completion {
            out.push(&ts[i]);
            assert(out@.map_values(|t: &TransitionObject| *t) =~= o0.map_values(|t: &TransitionObject| *t).push(ts@[i as int]));
        }
        assert(out@.map_values(|t: &TransitionObject| *t) =~= spec_done_transitions(ts@.take(i + 1)));
        i += 1;
    }
    assert(ts@.take(i as int) =~= ts@);
    out
}

/// Whether an index record is a submachine reference state.
pub fn is_submachine_record(kind: StateRecordKind) -> (r: bool)
    ensures
        r == (kind == StateRecordKind::Submachine),
{
    kind == StateRecordKind::Submachine
}


/// The first event of `evs` named `name`.
pub open spec fn spec_event_by_name(evs: Seq<EventObject>, name: Seq<char>) -> Option<EventObject>
    decreases evs.len(),
{
    if evs.len() == 0 {
        None
    } else {
        match spec_event_by_name(evs.drop_last(), name) {
            Some(e) => Some(e),
            None => if evs.last().name@ == name { Some(evs.last()) } else { None },
        }
    }
}

proof fn lemma_event_by_name_prefix(evs: Seq<EventObject>, k: int, name: Seq<char>)
    requires
        0 <= k <= evs.len(),
        spec_event_by_name(evs.take(k), name) is Some,
    ensures
        spec_event_by_name(evs, name) == spec_event_by_name(evs.take(k), name),
    decreases evs.len(),
{
    if k < evs.len() {
        assert(evs.drop_last().take(k) =~= evs.take(k));
        lemma_event_by_name_prefix(evs.drop_last(), k, name);
    } else {
        assert(evs.take(k) =~= evs);
    }
}

fn event_by_name<'b>(evs: &'b Vec<EventObject>, name: &str) -> (r: Option<&'b EventObject>)
    ensures
        match spec_event_by_name(evs@, name@) {
            Some(e) => r == Some(&e),
            None => r is None,
        },
{
    let mut i: usize = 0;
    while i < evs.len()
        invariant
            i <= evs.len(),
            spec_event_by_name(evs@.take(i as int), name@) is None,
        decreases evs.len() - i,
    {
        assert(evs@.take(i + 1).drop_last() =~= evs@.take(i as int));
        if str_eq(evs[i].name.as_str(), name) {
            proof {
                assert(spec_event_by_name(evs@.take(i + 1), name@) == Some(evs@[i as int]));
                lemma_event_by_name_prefix(evs@, i + 1, name@);
            }
            return Some(&evs[i]);
        }
        i += 1;
    }
    assert(evs@.take(i as int) =~= evs@);
    None
}

/// Entering a reference state: the instance is initialised afresh.
pub open spec fn spec_sub_init(sr: SubRefView, pad: Seq<char>) -> Seq<char> {
    pad
    + "/* Submachine entry: instantiate `"@
    + sr.sub_type
    + "`'s sub-instance\n"@
    + pad
    + " * at its implicit initial. Value member, heap-free;\n"@
    + pad
    + " * a re-entry (ref-state self-transition) resets it fresh. */\n"@
    + pad
    + sr.sub_type
    + "_init(&m->"@
    + sr.member
    + ");\n"@
}

/// Appends the start of the instance of `sr` (a fresh `<Sub>_init`).
pub fn emit_sub_init(sr: &SubRef<'_>, pad: &str, out: &mut String)
    ensures
        final(out)@ == old(out)@ + spec_sub_init(sr@, pad@),
{
    let ghost s0 = out@;
    let s = out;
    let mut b = (pad).to_owned();
    b.append("/* Submachine entry: instantiate `");
    b.append(sr.sub_type.as_str());
    b.append("`'s sub-instance\n");
    b.append(pad);
    b.append(" * at its implicit initial. Value member, heap-free;\n");
    b.append(pad);
    b.append(" * a re-entry (ref-state self-transition) resets it fresh. */\n");
    b.append(pad);
    b.append(sr.sub_type.as_str());
    b.append("_init(&m->");
    b.append(sr.member.as_str());
    b.append(");\n");
    s.append(b.as_str());
    assert(s@ =~= s0 + spec_sub_init(sr@, pad@));
}

/// The routing `case` of parent event `pev` into the template event `sev`.
pub open spec fn spec_route_case(ctx: CtxView, sr: SubRefView, pad: Seq<char>, pev: EventObject, sev: EventObject) -> Seq<char> {
    pad
    + "        case "@
    + spec_c_ident(ctx.machine.name@)
    + "_EVENT_"@
    + spec_c_ident(pev.name@)
    + ": __sev.id = "@
    + sr.sub_macro
    + "_EVENT_"@
    + spec_c_ident(sev.name@)
    + "; __routed = true; break;\n"@
}

/// The routing `case`s of the parent events that the template also
/// declares (matched by name), in the parent's order.
pub open spec fn spec_route_cases(ctx: CtxView, sr: SubRefView, pad: Seq<char>, evs: Seq<EventObject>) -> Seq<char>
    decreases evs.len(),
{
    if evs.len() == 0 {
        Seq::empty()
    } else {
        spec_route_cases(ctx, sr, pad, evs.drop_last()) + match spec_event_by_name(sr.template.events@, evs.last().name@) {
            Some(sev) => spec_route_case(ctx, sr, pad, evs.last(), sev),
            None => Seq::empty(),
        }
    }
}

fn push_route_cases(s: &mut String, ctx: &MachineEmitCtx<'_>, m: &str, sr: &SubRef<'_>, pad: &str)
    requires
        m@ == spec_c_ident(ctx.machine.name@),
    ensures
        final(s)@ == old(s)@ + spec_route_cases(ctx@, sr@, pad@, ctx.machine.events@),
{
    let ghost s0 = s@;
    let evs = &ctx.machine.events;
    let mut i: usize = 0;
    assert(s0 + spec_route_cases(ctx@, sr@, pad@, evs@.take(0)) =~= s0);
    while i < evs.len()
        invariant
            m@ == spec_c_ident(ctx.machine.name@),
            evs@ == ctx.machine.events@,
            i <= evs.len(),
            s@ == s0 + spec_route_cases(ctx@, sr@, pad@, evs@.take(i as int)),
        decreases evs.len() - i,
    {
        assert(evs@.take(i + 1).drop_last() =~= evs@.take(i as int));
        let pev = &evs[i];
        let ghost s1 = s@;
        match event_by_name(&sr.template.events, pev.name.as_str()) {
            Some(sev) => {
                let pn = c_ident(pev.name.as_str());
                let sn = c_ident(sev.name.as_str());
                let mut b = (pad).to_owned();
    b.append("        case ");
    b.append(m);
    b.append("_EVENT_");
    b.append(pn.as_str());
    b.append(": __sev.id = ");
    b.append(sr.sub_macro.as_str());
    b.append("_EVENT_");
    b.append(sn.as_str());
    b.append("; __routed = true; break;\n");
    s.append(b.as_str());
                assert(s@ =~= s1 + spec_route_case(ctx@, sr@, pad@, *pev, *sev));
            },
            None => {},
        }
        assert(s@ =~= s0 + spec_route_cases(ctx@, sr@, pad@, evs@.take(i + 1)));
        i += 1;
    }
    assert(evs@.take(i as int) =~= evs@);
}

/// The delegation `case` of one reference state: route the parent event
/// into the instance and, when routed, dispatch it there followed by
/// `tail`.
pub open spec fn spec_deleg_case(ctx: CtxView, sr: SubRefView, pad: Seq<char>, tail: Seq<char>) -> Seq<char> {
    pad
    + "    case "@
    + spec_c_ident(ctx.machine.name@)
    + "_STATE_"@
    + sr.parent_state_c
    + ": {\n"@
    + pad
    + "        "@
    + sr.sub_type
    + "_Event_t __sev;\n"@
    + pad
    + "        bool __routed = false;\n"@
    + pad
    + "        switch (ev->id) {\n"@
    + spec_route_cases(ctx, sr, pad, ctx.machine.events@)
    + pad
    + "        default: break;\n"@
    + pad
    + "        }\n"@
    + pad
    + "        if (__routed) {\n"@
    + pad
    + "            "@
    + sr.sub_type
    + "_dispatch(&m->"@
    + sr.member
    + ", &__sev);\n"@
    + tail
    + pad
    + "        }\n"@
    + pad
    + "        break;\n"@
    + pad
    + "    }\n"@
}

fn push_deleg_case(s: &mut String, ctx: &MachineEmitCtx<'_>, m: &str, sr: &SubRef<'_>, pad: &str, tail: &str)
    requires
        m@ == spec_c_ident(ctx.machine.name@),
    ensures
        final(s)@ == old(s)@ + spec_deleg_case(ctx@, sr@, pad@, tail@),
{
    let ghost s0 = s@;
    let mut b = (pad).to_owned();
    b.append("    case ");
    b.append(m);
    b.append("_STATE_");
    b.append(sr.parent_state_c.as_str());
    b.append(": {\n");
    b.append(pad);
    b.append("        ");
    b.append(sr.sub_type.as_str());
    b.append("_Event_t __sev;\n");
    b.append(pad);
    b.append("        bool __routed = false;\n");
    b.append(pad);
    b.append("        switch (ev->id) {\n");
    push_route_cases(&mut b, ctx, m, sr, pad);
    b.append(pad);
    b.append("        default: break;\n");
    b.append(pad);
    b.append("        }\n");
    b.append(pad);
    b.append("        if (__routed) {\n");
    b.append(pad);
    b.append("            ");
    b.append(sr.sub_type.as_str());
    b.append("_dispatch(&m->");
    b.append(sr.member.as_str());
    b.append(", &__sev);\n");
    b.append(tail);
    b.append(pad);
    b.append("        }\n");
    b.append(pad);
    b.append("        break;\n");
    b.append(pad);
    b.append("    }\n");
    s.append(b.as_str());
    assert(s@ =~= s0 + spec_deleg_case(ctx@, sr@, pad@, tail@));
}

pub open spec fn spec_deleg_cases(ctx: CtxView, srs: Seq<SubRefView>, pad: Seq<char>, tail: Seq<char>) -> Seq<char>
    decreases srs.len(),
{
    if srs.len() == 0 {
        Seq::empty()
    } else {
        spec_deleg_cases(ctx, srs.drop_last(), pad, tail) + spec_deleg_case(ctx, srs.last(), pad, tail)
    }
}

fn push_deleg_cases(s: &mut String, ctx: &MachineEmitCtx<'_>, m: &str, srs: &[SubRef<'_>], pad: &str, tail: &str)
    requires
        m@ == spec_c_ident(ctx.machine.name@),
    ensures
        final(s)@ == old(s)@ + spec_deleg_cases(ctx@, subrefs_view(srs@), pad@, tail@),
{
    let ghost s0 = s@;
    let ghost vs = subrefs_view(srs@);
    let mut i: usize = 0;
    assert(s0 + spec_deleg_cases(ctx@, vs.take(0), pad@, tail@) =~= s0);
    while i < srs.len()
        invariant
            m@ == spec_c_ident(ctx.machine.name@),
            vs == subrefs_view(srs@),
            i <= srs.len(),
            s@ == s0 + spec_deleg_cases(ctx@, vs.take(i as int), pad@, tail@),
        decreases srs.len() - i,
    {
        assert(vs.take(i + 1).drop_last() =~= vs.take(i as int));
        assert(vs.take(i + 1).last() == srs@[i as int]@);
        push_deleg_case(s, ctx, m, &srs[i], pad, tail);
        assert(s@ =~= s0 + spec_deleg_cases(ctx@, vs.take(i + 1), pad@, tail@));
        i += 1;
    }
    assert(vs.take(i as int) =~= vs);
}

/// What follows a routed dispatch in the switch strategy: the region is
/// marked consumed, and `__delegated_any` is set when tracked.
pub open spec fn spec_deleg_tail(pad: Seq<char>, track: bool) -> Seq<char> {
    pad + "            fired_in_region[__sr] = true; /* consumed by the sub */\n"@
        + if track { pad + "            __delegated_any = true;\n"@ } else { Seq::empty() }
}

/// The delegation block of the switch strategy (nothing without
/// references): each live region that fired no parent transition and
/// rests in a reference state routes the event into its instance.
pub open spec fn spec_delegation_block(ctx: CtxView, srs: Seq<SubRefView>, pad: Seq<char>, track: bool) -> Seq<char> {
    if srs.len() == 0 {
        Seq::empty()
    } else {
        pad
    + "/* Submachine delegation (transition wins): only the\n"@
    + pad
    + " * regions whose leaf is a submachine ref AND that did not fire a\n"@
    + pad
    + " * parent transition this step delegate the event into the sub. The\n"@
    + pad
    + " * parent event is re-resolved BY NAME into the sub's own event id\n"@
    + pad
    + " * space (the sub template has an independent id namespace). */\n"@
    + pad
    + "for (int8_t __sr = (int8_t)initial_active - 1; __sr >= 0; __sr--) {\n"@
    + pad
    + "    if ((uint8_t)__sr >= m->_active_count) continue;\n"@
    + pad
    + "    if (fired_in_region[__sr]) continue; /* parent transition won */\n"@
    + pad
    + "    switch (m->_active[__sr]) {\n"@
    + spec_deleg_cases(ctx, srs, pad, spec_deleg_tail(pad, track))
    + pad
    + "    default: break;\n"@
    + pad
    + "    }\n"@
    + pad
    + "}\n"@
    }
}

/// Appends the delegation block of the switch strategy.
pub fn emit_delegation_block(ctx: &MachineEmitCtx<'_>, sub_refs: &[SubRef<'_>], pad: &str, track_delegated: bool, out: &mut String)
    ensures
        final(out)@ == old(out)@ + spec_delegation_block(ctx@, subrefs_view(sub_refs@), pad@, track_delegated),
{
    let ghost s0 = out@;
    let ghost srs = subrefs_view(sub_refs@);
    if sub_refs.len() == 0 {
        assert(out@ =~= s0 + spec_delegation_block(ctx@, srs, pad@, track_delegated));
        return;
    }
    let mstr = ctx.macro_prefix();
    let m = mstr.as_str();
    let mut tail = pad.to_owned();
    tail.append("            fired_in_region[__sr] = true; /* consumed by the sub */\n");
    if track_delegated {
        tail.append(pad);
        tail.append("            __delegated_any = true;\n");
    }
    assert(tail@ =~= spec_deleg_tail(pad@, track_delegated));
    let s = out;
    let mut b = (pad).to_owned();
    b.append("/* Submachine delegation (transition wins): only the\n");
    b.append(pad);
    b.append(" * regions whose leaf is a submachine ref AND that did not fire a\n");
    b.append(pad);
    b.append(" * parent transition this step delegate the event into the sub. The\n");
    b.append(pad);
    b.append(" * parent event is re-resolved BY NAME into the sub's own event id\n");
    b.append(pad);
    b.append(" * space (the sub template has an independent id namespace). */\n");
    b.append(pad);
    b.append("for (int8_t __sr = (int8_t)initial_active - 1; __sr >= 0; __sr--) {\n");
    b.append(pad);
    b.append("    if ((uint8_t)__sr >= m->_active_count) continue;\n");
    b.append(pad);
    b.append("    if (fired_in_region[__sr]) continue; /* parent transition won */\n");
    b.append(pad);
    b.append("    switch (m->_active[__sr]) {\n");
    push_deleg_cases(&mut b, ctx, m, sub_refs, pad, tail.as_str());
    b.append(pad);
    b.append("    default: break;\n");
    b.append(pad);
    b.append("    }\n");
    b.append(pad);
    b.append("}\n");
    s.append(b.as_str());
    assert(s@ =~= s0 + spec_delegation_block(ctx@, srs, pad@, track_delegated));
}

/// The delegation block of the table strategy (nothing without
/// references): each live region with no selected parent row that rests
/// in a reference state routes the event into its instance.
pub open spec fn spec_delegation_block_table(ctx: CtxView, srs: Seq<SubRefView>, pad: Seq<char>) -> Seq<char> {
    if srs.len() == 0 {
        Seq::empty()
    } else {
        pad
    + "/* Submachine delegation (transition wins): a ref-state\n"@
    + pad
    + " * region with NO selected parent row delegates the event into its\n"@
    + pad
    + " * sub (by-name id resolution). Runs before the no-row early return\n"@
    + pad
    + " * so the sub still advances when no parent row matched. */\n"@
    + pad
    + "for (int8_t __sr = (int8_t)initial_active - 1; __sr >= 0; __sr--) {\n"@
    + pad
    + "    if ((uint8_t)__sr >= m->_active_count) continue;\n"@
    + pad
    + "    if (__region_selected[__sr]) continue; /* parent row won */\n"@
    + pad
    + "    switch (m->_active[__sr]) {\n"@
    + spec_deleg_cases(ctx, srs, pad, pad + "            __delegated_any = true;\n"@)
    + pad
    + "    default: break;\n"@
    + pad
    + "    }\n"@
    + pad
    + "}\n"@
    }
}

/// Appends the delegation block of the table strategy; `track_delegated`
/// is accepted for symmetry with the switch form, the table form always
/// records the delegation.
pub fn emit_delegation_block_table(ctx: &MachineEmitCtx<'_>, sub_refs: &[SubRef<'_>], pad: &str, track_delegated: bool, out: &mut String)
    ensures
        final(out)@ == old(out)@ + spec_delegation_block_table(ctx@, subrefs_view(sub_refs@), pad@),
{
    let ghost s0 = out@;
    let ghost srs = subrefs_view(sub_refs@);
    if sub_refs.len() == 0 {
        assert(out@ =~= s0 + spec_delegation_block_table(ctx@, srs, pad@));
        return;
    }
    let mstr = ctx.macro_prefix();
    let m = mstr.as_str();
    let mut tail = pad.to_owned();
    tail.append("            __delegated_any = true;\n");
    let s = out;
    let mut b = (pad).to_owned();
    b.append("/* Submachine delegation (transition wins): a ref-state\n");
    b.append(pad);
    b.append(" * region with NO selected parent row delegates the event into its\n");
    b.append(pad);
    b.append(" * sub (by-name id resolution). Runs before the no-row early return\n");
    b.append(pad);
    b.append(" * so the sub still advances when no parent row matched. */\n");
    b.append(pad);
    b.append("for (int8_t __sr = (int8_t)initial_active - 1; __sr >= 0; __sr--) {\n");
    b.append(pad);
    b.append("    if ((uint8_t)__sr >= m->_active_count) continue;\n");
    b.append(pad);
    b.append("    if (__region_selected[__sr]) continue; /* parent row won */\n");
    b.append(pad);
    b.append("    switch (m->_active[__sr]) {\n");
    push_deleg_cases(&mut b, ctx, m, sub_refs, pad, tail.as_str());
    b.append(pad);
    b.append("    default: break;\n");
    b.append(pad);
    b.append("    }\n");
    b.append(pad);
    b.append("}\n");
    s.append(b.as_str());
    assert(s@ =~= s0 + spec_delegation_block_table(ctx@, srs, pad@));
}

/// The completion sweep of one reference whose template has final state `fin`: when the instance rests in it, the parent dispatches a completion event.
pub open spec fn spec_sweep_one(ctx: CtxView, sr: SubRefView, pad: Seq<char>, fin: Seq<char>) -> Seq<char> {
    pad
    + "for (uint8_t __cs = 0; __cs < m->_active_count; __cs++) {\n"@
    + pad
    + "    if (m->_active[__cs] == "@
    + spec_c_ident(ctx.machine.name@)
    + "_STATE_"@
    + sr.parent_state_c
    + " &&\n"@
    + pad
    + "        "@
    + sr.sub_type
    + "_current_state(&m->"@
    + sr.member
    + ") == "@
    + sr.sub_macro
    + "_STATE_"@
    + fin
    + ") {\n"@
    + pad
    + "        "@
    + ctx.machine.name@
    + "_Event_t __comp;\n"@
    + pad
    + "        __comp.id = "@
    + spec_c_ident(ctx.machine.name@)
    + "_EVENT__COMPLETION;\n"@
    + pad
    + "        "@
    + ctx.machine.name@
    + "_dispatch(m, &__comp);\n"@
    + pad
    + "    }\n"@
    + pad
    + "}\n"@
}

pub open spec fn spec_sweep_all(ctx: CtxView, srs: Seq<SubRefView>, pad: Seq<char>) -> Seq<char>
    decreases srs.len(),
{
    if srs.len() == 0 {
        Seq::empty()
    } else {
        spec_sweep_all(ctx, srs.drop_last(), pad) + match spec_final_state_c(srs.last()) {
            Some(fin) => spec_sweep_one(ctx, srs.last(), pad, fin),
            None => Seq::empty(),
        }
    }
}

pub open spec fn spec_sweep_head(pad: Seq<char>) -> Seq<char> {
    pad
    + "/* Submachine completion sweep: a sub-instance whose\n"@
    + pad
    + " * active leaf is its `Final` makes the parent receive a synthetic\n"@
    + pad
    + " * completion, firing the ref-state `done -> Target` through the SAME\n"@
    + pad
    + " * completion path every other completion uses (idempotent: the\n"@
    + pad
    + " * `done` exits the ref-state so this does not re-fire). */\n"@
}

/// Appends the completion sweep: for every reference whose template has a final state, a parent completion is dispatched while the instance rests in it.
pub open spec fn spec_emit_completion_sweep(ctx: CtxView, srs: Seq<SubRefView>, pad: Seq<char>) -> Seq<char> {
    if srs.len() == 0 {
        Seq::empty()
    } else {
        spec_sweep_head(pad) + spec_sweep_all(ctx, srs, pad)
    }
}

/// Appends the completion sweep: for every reference whose template has a final state, a parent completion is dispatched while the instance rests in it.
pub fn emit_completion_sweep(ctx: &MachineEmitCtx<'_>, sub_refs: &[SubRef<'_>], pad: &str, out: &mut String)
    ensures
        final(out)@ == old(out)@ + spec_emit_completion_sweep(ctx@, subrefs_view(sub_refs@), pad@),
{
    let ghost s0 = out@;
    let ghost vs = subrefs_view(sub_refs@);
    if sub_refs.len() == 0 {
        assert(out@ =~= s0 + spec_emit_completion_sweep(ctx@, vs, pad@));
        return;
    }
    let p = ctx.type_prefix();
    let mstr = ctx.macro_prefix();
    let m = mstr.as_str();
    let s = out;
    let mut b = (pad).to_owned();
    b.append("/* Submachine completion sweep: a sub-instance whose\n");
    b.append(pad);
    b.append(" * active leaf is its `Final` makes the parent receive a synthetic\n");
    b.append(pad);
    b.append(" * completion, firing the ref-state `done -> Target` through the SAME\n");
    b.append(pad);
    b.append(" * completion path every other completion uses (idempotent: the\n");
    b.append(pad);
    b.append(" * `done` exits the ref-state so this does not re-fire). */\n");
    s.append(b.as_str());
    assert(s@ =~= s0 + spec_sweep_head(pad@));
    let ghost s1 = s@;
    let mut i: usize = 0;
    assert(s1 + spec_sweep_all(ctx@, vs.take(0), pad@) =~= s1);
    while i < sub_refs.len()
        invariant
            p@ == ctx.machine.name@,
            m@ == spec_c_ident(ctx.machine.name@),
            vs == subrefs_view(sub_refs@),
            i <= sub_refs.len(),
            s@ == s1 + spec_sweep_all(ctx@, vs.take(i as int), pad@),
        decreases sub_refs.len() - i,
    {
        assert(vs.take(i + 1).drop_last() =~= vs.take(i as int));
        assert(vs.take(i + 1).last() == sub_refs@[i as int]@);
        let sr = &sub_refs[i];
        let ghost s2 = s@;
        match sr.final_state_c() {
            Some(fin) => {
                let mut b = (pad).to_owned();
    b.append("for (uint8_t __cs = 0; __cs < m->_active_count; __cs++) {\n");
    b.append(pad);
    b.append("    if (m->_active[__cs] == ");
    b.append(m);
    b.append("_STATE_");
    b.append(sr.parent_state_c.as_str());
    b.append(" &&\n");
    b.append(pad);
    b.append("        ");
    b.append(sr.sub_type.as_str());
    b.append("_current_state(&m->");
    b.append(sr.member.as_str());
    b.append(") == ");
    b.append(sr.sub_macro.as_str());
    b.append("_STATE_");
    b.append(fin.as_str());
    b.append(") {\n");
    b.append(pad);
    b.append("        ");
    b.append(p);
    b.append("_Event_t __comp;\n");
    b.append(pad);
    b.append("        __comp.id = ");
    b.append(m);
    b.append("_EVENT__COMPLETION;\n");
    b.append(pad);
    b.append("        ");
    b.append(p);
    b.append("_dispatch(m, &__comp);\n");
    b.append(pad);
    b.append("    }\n");
    b.append(pad);
    b.append("}\n");
    s.append(b.as_str());
                assert(s@ =~= s2 + spec_sweep_one(ctx@, sr@, pad@, fin@));
            },
            None => {},
        }
        assert(s@ =~= s1 + spec_sweep_all(ctx@, vs.take(i + 1), pad@));
        i += 1;
    }
    assert(vs.take(i as int) =~= vs);
    assert(s@ =~= s0 + spec_emit_completion_sweep(ctx@, vs, pad@));
}

/// The pending check of one reference whose template has final state `fin`: sets `__sub_pending` while the instance rests in it.
pub open spec fn spec_pending_one(ctx: CtxView, sr: SubRefView, pad: Seq<char>, fin: Seq<char>) -> Seq<char> {
    pad
    + "for (uint8_t __pc = 0; __pc < m->_active_count; __pc++) {\n"@
    + pad
    + "    if (m->_active[__pc] == "@
    + spec_c_ident(ctx.machine.name@)
    + "_STATE_"@
    + sr.parent_state_c
    + " &&\n"@
    + pad
    + "        "@
    + sr.sub_type
    + "_current_state(&m->"@
    + sr.member
    + ") == "@
    + sr.sub_macro
    + "_STATE_"@
    + fin
    + ") {\n"@
    + pad
    + "        __sub_pending = true;\n"@
    + pad
    + "    }\n"@
    + pad
    + "}\n"@
}

pub open spec fn spec_pending_all(ctx: CtxView, srs: Seq<SubRefView>, pad: Seq<char>) -> Seq<char>
    decreases srs.len(),
{
    if srs.len() == 0 {
        Seq::empty()
    } else {
        spec_pending_all(ctx, srs.drop_last(), pad) + match spec_final_state_c(srs.last()) {
            Some(fin) => spec_pending_one(ctx, srs.last(), pad, fin),
            None => Seq::empty(),
        }
    }
}

pub open spec fn spec_pending_head(pad: Seq<char>) -> Seq<char> {
    Seq::empty()
}

/// Appends the pending checks of every reference whose template has a final state.
pub open spec fn spec_emit_sub_pending_check(ctx: CtxView, srs: Seq<SubRefView>, pad: Seq<char>) -> Seq<char> {
    if srs.len() == 0 {
        Seq::empty()
    } else {
        spec_pending_head(pad) + spec_pending_all(ctx, srs, pad)
    }
}

/// Appends the pending checks of every reference whose template has a final state.
pub fn emit_sub_pending_check(ctx: &MachineEmitCtx<'_>, sub_refs: &[SubRef<'_>], pad: &str, out: &mut String)
    ensures
        final(out)@ == old(out)@ + spec_emit_sub_pending_check(ctx@, subrefs_view(sub_refs@), pad@),
{
    let ghost s0 = out@;
    let ghost vs = subrefs_view(sub_refs@);
    if sub_refs.len() == 0 {
        assert(out@ =~= s0 + spec_emit_sub_pending_check(ctx@, vs, pad@));
        return;
    }
    let p = ctx.type_prefix();
    let mstr = ctx.macro_prefix();
    let m = mstr.as_str();
    let s = out;
    
    assert(s@ =~= s0 + spec_pending_head(pad@));
    let ghost s1 = s@;
    let mut i: usize = 0;
    assert(s1 + spec_pending_all(ctx@, vs.take(0), pad@) =~= s1);
    while i < sub_refs.len()
        invariant
            p@ == ctx.machine.name@,
            m@ == spec_c_ident(ctx.machine.name@),
            vs == subrefs_view(sub_refs@),
            i <= sub_refs.len(),
            s@ == s1 + spec_pending_all(ctx@, vs.take(i as int), pad@),
        decreases sub_refs.len() - i,
    {
        assert(vs.take(i + 1).drop_last() =~= vs.take(i as int));
        assert(vs.take(i + 1).last() == sub_refs@[i as int]@);
        let sr = &sub_refs[i];
        let ghost s2 = s@;
        match sr.final_state_c() {
            Some(fin) => {
                let mut b = (pad).to_owned();
    b.append("for (uint8_t __pc = 0; __pc < m->_active_count; __pc++) {\n");
    b.append(pad);
    b.append("    if (m->_active[__pc] == ");
    b.append(m);
    b.append("_STATE_");
    b.append(sr.parent_state_c.as_str());
    b.append(" &&\n");
    b.append(pad);
    b.append("        ");
    b.append(sr.sub_type.as_str());
    b.append("_current_state(&m->");
    b.append(sr.member.as_str());
    b.append(") == ");
    b.append(sr.sub_macro.as_str());
    b.append("_STATE_");
    b.append(fin.as_str());
    b.append(") {\n");
    b.append(pad);
    b.append("        __sub_pending = true;\n");
    b.append(pad);
    b.append("    }\n");
    b.append(pad);
    b.append("}\n");
    s.append(b.as_str());
                assert(s@ =~= s2 + spec_pending_one(ctx@, sr@, pad@, fin@));
            },
            None => {},
        }
        assert(s@ =~= s1 + spec_pending_all(ctx@, vs.take(i + 1), pad@));
        i += 1;
    }
    assert(vs.take(i as int) =~= vs);
    assert(s@ =~= s0 + spec_emit_sub_pending_check(ctx@, vs, pad@));
}

} // verus!
