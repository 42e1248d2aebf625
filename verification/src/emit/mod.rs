//! C99 file emission: the emitted-file bundle, emission errors, the
//! per-machine emission context and the pipeline.

use vstd::prelude::*;

use crate::config::{CodegenConfig, DispatchStrategy, OverflowPolicy, QueueOverrideNote, spec_macro_name, spec_override_for, spec_resolve_queue};
use crate::expr::{primitive_to_c, spec_primitive_to_c};
use crate::ir::{Ir, ContextField, EventObject, MachineObject, RegionObject, StateNode, TimerObject, TransitionObject, Type};
use crate::parent_table::ParentTable;
use crate::region_layout::RegionLayout;
use crate::state_index::{StateIndex, RecordView, c_ident, spec_build, spec_c_ident, spec_lookup};
use crate::text::{push_decimal, push_string, spec_decimal, str_eq};

use self::license::spec_header_block;

pub mod completion;
pub mod conf_header;
pub mod defer;
pub mod dispatch_common;
pub mod dispatch_switch;
pub mod dispatch_table;
pub mod entry_exit;
pub mod hal;
pub mod header;
pub mod history;
pub mod impl_header;
pub mod license;
pub mod limits;
pub mod pseudostate;
pub mod queue;
pub mod source;
pub mod submachine;
pub mod timer;
pub mod trace_hook;
pub mod transition;

verus! {

/// Bundle of emitted files plus non-fatal notes the caller must surface.
#[derive(Debug)]
pub struct EmittedFiles {
    pub files: Vec<EmittedFile>,
    pub notes: Vec<String>,
}

/// One emitted file.
#[derive(Debug)]
pub struct EmittedFile {
    pub path: String,
    pub role: FileRole,
    pub content: String,
}

/// Role of an emitted file.
#[derive(Clone, Copy, Debug, PartialEq, Eq, Structural)]
pub enum FileRole {
    Header,
    Source,
    ImplHeader,
    ConfHeader,
    Hal,
}

/// Emission errors: the description was malformed in a way that code
/// generation refuses to paper over.
#[derive(Debug)]
pub enum EmitError {
    /// The machine has no states.
    EmptyMachine(String),
    /// The queue capacity is not a power of two.
    QueueCapacityNotPowerOfTwo(u32),
    /// More than 256 indexed vertices (the index is a `u8`).
    TooManyStates,
    /// A transition or timer names a state id that was never indexed.
    UnknownStateId(String),
}

/// The first index in `files` whose path is `path`.
pub open spec fn spec_find_file(files: Seq<EmittedFile>, path: Seq<char>) -> Option<int>
    decreases files.len(),
{
    if files.len() == 0 {
        None
    } else {
        match spec_find_file(files.drop_last(), path) {
            Some(i) => Some(i),
            None => if files.last().path@ == path {
                Some(files.len() - 1)
            } else {
                None
            },
        }
    }
}

impl EmittedFiles {
    /// The first file whose path is exactly `path`.
    pub fn find(&self, path: &str) -> (r: Option<&EmittedFile>)
        ensures
            match spec_find_file(self.files@, path@) {
                Some(i) => r == Some(&self.files@[i]),
                None => r is None,
            },
    {
        let mut i: usize = 0;
        while i < self.files.len()
            invariant
                i <= self.files.len(),
                spec_find_file(self.files@.take(i as int), path@) is None,
            decreases self.files.len() - i,
        {
            assert(self.files@.take(i + 1).drop_last() =~= self.files@.take(i as int));
            if str_eq(self.files[i].path.as_str(), path) {
                proof {
                    lemma_find_prefix(self.files@, i as int + 1, path@);
                }
                return Some(&self.files[i]);
            }
            i += 1;
        }
        assert(self.files@.take(i as int) =~= self.files@);
        None
    }
}

proof fn lemma_find_prefix(files: Seq<EmittedFile>, k: int, path: Seq<char>)
    requires
        0 <= k <= files.len(),
        spec_find_file(files.take(k), path) is Some,
    ensures
        spec_find_file(files, path) == spec_find_file(files.take(k), path),
    decreases files.len(),
{
    if k < files.len() {
        assert(files.drop_last().take(k) =~= files.take(k));
        lemma_find_prefix(files.drop_last(), k, path);
    } else {
        assert(files.take(k) =~= files);
    }
}

/// `n` is a positive power of two.
pub open spec fn spec_is_power_of_two(n: nat) -> bool
    decreases n,
{
    if n == 1 {
        true
    } else if n == 0 || n % 2 == 1 {
        false
    } else {
        spec_is_power_of_two(n / 2)
    }
}

proof fn lemma_pow2_bits(n: u32)
    ensures
        (n != 0 && (n & ((n - 1) as u32)) == 0) == spec_is_power_of_two(n as nat),
    decreases n,
{
    if n == 0 {
    } else if n == 1 {
        assert((1u32 & 0u32) == 0) by (bit_vector);
    } else if n % 2 == 1 {
        assert(n % 2 == 1 && n > 1 ==> (n & ((n - 1) as u32)) != 0) by (bit_vector);
    } else {
        let h = n / 2;
        assert(n % 2 == 0 && n >= 2 ==> (((n & ((n - 1) as u32)) == 0) == (((n / 2) & ((n / 2 - 1) as u32)) == 0))) by (bit_vector);
        lemma_pow2_bits(h);
    }
}

/// Whether `n` is a positive power of two (bitwise test).
pub fn is_power_of_two(n: u32) -> (r: bool)
    ensures
        r == spec_is_power_of_two(n as nat),
{
    proof {
        lemma_pow2_bits(n);
    }
    n != 0 && (n & (n - 1)) == 0
}

/// Per-machine emission context threaded through the file emitters.
pub struct MachineEmitCtx<'a> {
    pub machine: &'a MachineObject,
    pub index: &'a StateIndex,
    pub parents: &'a ParentTable,
    pub layout: &'a RegionLayout,
    pub config: &'a CodegenConfig,
    pub strategy: DispatchStrategy,
    /// The effective queue capacity of this machine.
    pub queue_capacity: u32,
    /// The effective overflow policy of this machine.
    pub queue_overflow: OverflowPolicy,
}

/// A sequence held by value and read through `@`.
pub struct SeqView<T> {
    pub s: Seq<T>,
}

impl<T> View for SeqView<T> {
    type V = Seq<T>;

    open spec fn view(&self) -> Seq<T> {
        self.s
    }
}

impl SeqView<RecordView> {
    /// The index is well formed.
    pub open spec fn wf(&self) -> bool {
        crate::state_index::index_wf(self.s)
    }
}

/// The parent table of a context, by its view.
pub struct ParentsView {
    pub parents: SeqView<u8>,
}

/// The region layout of a context, by its view.
pub struct LayoutView {
    pub slot_of: SeqView<u8>,
    pub max_parallel_regions: u8,
}

impl LayoutView {
    /// Slot of state `i`, 0 when out of range.
    pub open spec fn spec_slot(&self, i: int) -> u8 {
        if 0 <= i < self.slot_of@.len() {
            self.slot_of@[i]
        } else {
            0
        }
    }
}

/// What the emitters read of an emission context: the machine and the
/// configuration, the index, parent table and layout by their views, the
/// resolved strategy and the effective queue settings.
pub struct CtxView<'a> {
    pub machine: &'a MachineObject,
    pub config: &'a CodegenConfig,
    pub index: SeqView<RecordView>,
    pub parents: ParentsView,
    pub layout: LayoutView,
    pub strategy: DispatchStrategy,
    pub queue_capacity: u32,
    pub queue_overflow: OverflowPolicy,
}

impl<'a> View for MachineEmitCtx<'a> {
    type V = CtxView<'a>;

    open spec fn view(&self) -> CtxView<'a> {
        CtxView {
            machine: self.machine,
            config: self.config,
            index: SeqView { s: self.index@ },
            parents: ParentsView { parents: SeqView { s: self.parents.parents@ } },
            layout: LayoutView {
                slot_of: SeqView { s: self.layout.slot_of@ },
                max_parallel_regions: self.layout.max_parallel_regions,
            },
            strategy: self.strategy,
            queue_capacity: self.queue_capacity,
            queue_overflow: self.queue_overflow,
        }
    }
}

/// The tables of a context belong together: a well-formed index and its
/// parent table.
pub open spec fn ctx_wf(ctx: CtxView) -> bool {
    entry_exit::tables_fit(ctx.index@, ctx.parents.parents@)
}

/// The name of the first event with IR id `id`, if any.
pub open spec fn spec_event_name(evs: Seq<EventObject>, id: Seq<char>) -> Option<Seq<char>>
    decreases evs.len(),
{
    if evs.len() == 0 {
        None
    } else {
        match spec_event_name(evs.drop_last(), id) {
            Some(n) => Some(n),
            None => if evs.last().id@ == id {
                Some(evs.last().name@)
            } else {
                None
            },
        }
    }
}

/// The C enum of an event id: `PREFIX_EVENT_NAME`, from the event's name
/// when the id is declared, else from the id itself.
pub open spec fn spec_event_c_enum(m: MachineObject, id: Seq<char>) -> Seq<char> {
    spec_c_ident(m.name@) + "_EVENT_"@ + spec_c_ident(
        match spec_event_name(m.events@, id) {
            Some(n) => n,
            None => id,
        },
    )
}

/// The type of the first context field named `name`, if any.
pub open spec fn spec_field_type(fs: Seq<ContextField>, name: Seq<char>) -> Option<Type>
    decreases fs.len(),
{
    if fs.len() == 0 {
        None
    } else {
        match spec_field_type(fs.drop_last(), name) {
            Some(t) => Some(t),
            None => if fs.last().name@ == name {
                Some(fs.last().ty)
            } else {
                None
            },
        }
    }
}

/// C type of a context field: its primitive spelling, `int` otherwise.
pub open spec fn spec_ctx_field_c_type(m: MachineObject, name: Seq<char>) -> Seq<char> {
    match spec_field_type(m.context.fields@, name) {
        Some(Type::Primitive { name: p }) => spec_primitive_to_c(p@),
        _ => "int"@,
    }
}

impl<'a> MachineEmitCtx<'a> {
    /// Upper-case machine prefix for macros and include guards, e.g. `MOTOR`.
    pub fn macro_prefix(&self) -> (r: String)
        ensures
            r@ == spec_c_ident(self.machine.name@),
    {
        c_ident(self.machine.name.as_str())
    }

    /// Mixed-case machine prefix for functions and types, e.g. `Motor`.
    pub fn type_prefix(&self) -> (r: &str)
        ensures
            r@ == self.machine.name@,
    {
        self.machine.name.as_str()
    }

    /// File name stem, e.g. `Motor`.
    pub fn file_stem(&self) -> (r: &str)
        ensures
            r@ == self.machine.name@,
    {
        self.machine.name.as_str()
    }

    /// The C enum value of an IR event id, e.g. `MOTOR_EVENT_START`.
    pub fn event_c_enum(&self, event_id: &str) -> (r: String)
        ensures
            r@ == spec_event_c_enum(*self.machine, event_id@),
    {
        let mut s = self.macro_prefix();
        s.append("_EVENT_");
        let evs = &self.machine.events;
        let mut i: usize = 0;
        while i < evs.len()
            invariant
                i <= evs.len(),
                evs@ == self.machine.events@,
                s@ == spec_c_ident(self.machine.name@) + "_EVENT_"@,
                spec_event_name(evs@.take(i as int), event_id@) is None,
            decreases evs.len() - i,
        {
            assert(evs@.take(i + 1).drop_last() =~= evs@.take(i as int));
            if str_eq(evs[i].id.as_str(), event_id) {
                proof {
                    lemma_event_name_prefix(evs@, i + 1, event_id@);
                    assert(evs@.take(i + 1).last() == evs@[i as int]);
                    assert(spec_event_name(evs@, event_id@) == Some(evs@[i as int].name@));
                }
                let n = c_ident(evs[i].name.as_str());
                push_string(&mut s, &n);
                return s;
            }
            i += 1;
        }
        assert(evs@.take(i as int) =~= evs@);
        assert(spec_event_name(evs@, event_id@) is None);
        let n = c_ident(event_id);
        push_string(&mut s, &n);
        s
    }

    /// The C type of a context field: its primitive C spelling, `int` for
    /// other types or unknown fields.
    pub fn ctx_field_c_type(&self, field_name: &str) -> (r: &'static str)
        ensures
            r@ == spec_ctx_field_c_type(*self.machine, field_name@),
    {
        let fs = &self.machine.context.fields;
        let mut i: usize = 0;
        while i < fs.len()
            invariant
                i <= fs.len(),
                fs@ == self.machine.context.fields@,
                spec_field_type(fs@.take(i as int), field_name@) is None,
            decreases fs.len() - i,
        {
            assert(fs@.take(i + 1).drop_last() =~= fs@.take(i as int));
            if str_eq(fs[i].name.as_str(), field_name) {
                proof {
                    lemma_field_type_prefix(fs@, i + 1, field_name@);
                }
                return match &fs[i].ty {
                    Type::Primitive { name } => primitive_to_c(name.as_str()),
                    _ => "int",
                };
            }
            i += 1;
        }
        assert(fs@.take(i as int) =~= fs@);
        "int"
    }
}

proof fn lemma_event_name_prefix(evs: Seq<EventObject>, k: int, id: Seq<char>)
    requires
        0 <= k <= evs.len(),
        spec_event_name(evs.take(k), id) is Some,
    ensures
        spec_event_name(evs, id) == spec_event_name(evs.take(k), id),
    decreases evs.len(),
{
    if k < evs.len() {
        assert(evs.drop_last().take(k) =~= evs.take(k));
        lemma_event_name_prefix(evs.drop_last(), k, id);
    } else {
        assert(evs.take(k) =~= evs);
    }
}

proof fn lemma_field_type_prefix(fs: Seq<ContextField>, k: int, name: Seq<char>)
    requires
        0 <= k <= fs.len(),
        spec_field_type(fs.take(k), name) is Some,
    ensures
        spec_field_type(fs, name) == spec_field_type(fs.take(k), name),
    decreases fs.len(),
{
    if k < fs.len() {
        assert(fs.drop_last().take(k) =~= fs.take(k));
        lemma_field_type_prefix(fs.drop_last(), k, name);
    } else {
        assert(fs.take(k) =~= fs);
    }
}


// ---------------------------------------------------------------------
// Errors as values
// ---------------------------------------------------------------------

/// Mathematical view of an emission error.
pub enum EmitErrorView {
    EmptyMachine(Seq<char>),
    QueueCapacityNotPowerOfTwo(u32),
    TooManyStates,
    UnknownStateId(Seq<char>),
}

impl View for EmitError {
    type V = EmitErrorView;

    open spec fn view(&self) -> EmitErrorView {
        match self {
            EmitError::EmptyMachine(n) => EmitErrorView::EmptyMachine(n@),
            EmitError::QueueCapacityNotPowerOfTwo(c) => EmitErrorView::QueueCapacityNotPowerOfTwo(*c),
            EmitError::TooManyStates => EmitErrorView::TooManyStates,
            EmitError::UnknownStateId(id) => EmitErrorView::UnknownStateId(id@),
        }
    }
}

/// The error of a result, if any.
pub open spec fn err_view(r: Result<(), EmitError>) -> Option<EmitErrorView> {
    match r {
        Ok(_) => None,
        Err(e) => Some(e@),
    }
}

/// The first of two outcomes that is an error.
pub open spec fn first_err(a: Option<EmitErrorView>, b: Option<EmitErrorView>) -> Option<EmitErrorView> {
    match a {
        Some(e) => Some(e),
        None => b,
    }
}

// ---------------------------------------------------------------------
// Pre-flight: every referenced state id resolves
// ---------------------------------------------------------------------

/// An id fails the check when it is non-empty and resolves to no record;
/// an empty id (a name the analysis already reported) is skipped.
pub open spec fn spec_check_id(recs: Seq<RecordView>, id: Seq<char>) -> Option<EmitErrorView> {
    if id.len() != 0 && spec_lookup(recs, id) is None {
        Some(EmitErrorView::UnknownStateId(id))
    } else {
        None
    }
}

pub open spec fn spec_check_transitions(recs: Seq<RecordView>, ts: Seq<TransitionObject>) -> Option<EmitErrorView>
    decreases ts.len(),
{
    if ts.len() == 0 {
        None
    } else {
        first_err(
            spec_check_transitions(recs, ts.drop_last()),
            first_err(spec_check_id(recs, ts.last().source@), spec_check_id(recs, ts.last().target@)),
        )
    }
}

pub open spec fn spec_check_timers(recs: Seq<RecordView>, ts: Seq<TimerObject>) -> Option<EmitErrorView>
    decreases ts.len(),
{
    if ts.len() == 0 {
        None
    } else {
        first_err(
            spec_check_timers(recs, ts.drop_last()),
            match ts.last().target {
                Some(t) => spec_check_id(recs, t@),
                None => None,
            },
        )
    }
}

/// The first unresolvable id of a state, in the order: its transitions,
/// its timers (simple and composite states), its regions.
pub open spec fn spec_check_node(recs: Seq<RecordView>, s: StateNode) -> Option<EmitErrorView>
    decreases s,
{
    match s {
        StateNode::Simple(x) => first_err(spec_check_transitions(recs, x.transitions@), spec_check_timers(recs, x.timers@)),
        StateNode::Composite(c) => first_err(
            spec_check_transitions(recs, c.transitions@),
            first_err(spec_check_timers(recs, c.timers@), spec_check_regions(recs, c.regions@)),
        ),
        StateNode::Parallel(q) => first_err(spec_check_transitions(recs, q.transitions@), spec_check_regions(recs, q.regions@)),
        StateNode::Submachine(sm) => spec_check_transitions(recs, sm.transitions@),
        _ => None,
    }
}

pub open spec fn spec_check_regions(recs: Seq<RecordView>, rs: Seq<RegionObject>) -> Option<EmitErrorView>
    decreases rs,
{
    if rs.len() == 0 {
        None
    } else {
        first_err(spec_check_regions(recs, rs.drop_last()), spec_check_states(recs, rs.last().states@))
    }
}

pub open spec fn spec_check_states(recs: Seq<RecordView>, ss: Seq<StateNode>) -> Option<EmitErrorView>
    decreases ss,
{
    if ss.len() == 0 {
        None
    } else {
        first_err(spec_check_states(recs, ss.drop_last()), spec_check_node(recs, ss.last()))
    }
}

fn check_id(index: &StateIndex, id: &str) -> (r: Result<(), EmitError>)
    requires
        index@.len() <= 256,
    ensures
        err_view(r) == spec_check_id(index@, id@),
{
    if id.unicode_len() == 0 {
        return Ok(());
    }
    match index.lookup(id) {
        Some(_) => Ok(()),
        None => Err(EmitError::UnknownStateId(id.to_owned())),
    }
}

fn check_transitions(index: &StateIndex, ts: &Vec<TransitionObject>) -> (r: Result<(), EmitError>)
    requires
        index@.len() <= 256,
    ensures
        err_view(r) == spec_check_transitions(index@, ts@),
{
    let mut i: usize = 0;
    while i < ts.len()
        invariant
            index@.len() <= 256,
            i <= ts.len(),
            spec_check_transitions(index@, ts@.take(i as int)) is None,
        decreases ts.len() - i,
    {
        assert(ts@.take(i + 1).drop_last() =~= ts@.take(i as int));
        proof {
            lemma_check_transitions_prefix(index@, ts@, i + 1);
        }
        let a = check_id(index, ts[i].source.as_str());
        if a.is_err() {
            return a;
        }
        let b = check_id(index, ts[i].target.as_str());
        if b.is_err() {
            return b;
        }
        i += 1;
    }
    assert(ts@.take(i as int) =~= ts@);
    Ok(())
}

proof fn lemma_check_transitions_prefix(recs: Seq<RecordView>, ts: Seq<TransitionObject>, k: int)
    requires
        0 <= k <= ts.len(),
    ensures
        spec_check_transitions(recs, ts.take(k)) is Some ==> spec_check_transitions(recs, ts) == spec_check_transitions(recs, ts.take(k)),
    decreases ts.len(),
{
    if k < ts.len() {
        assert(ts.drop_last().take(k) =~= ts.take(k));
        lemma_check_transitions_prefix(recs, ts.drop_last(), k);
    } else {
        assert(ts.take(k) =~= ts);
    }
}

fn check_timers(index: &StateIndex, ts: &Vec<TimerObject>) -> (r: Result<(), EmitError>)
    requires
        index@.len() <= 256,
    ensures
        err_view(r) == spec_check_timers(index@, ts@),
{
    let mut i: usize = 0;
    while i < ts.len()
        invariant
            index@.len() <= 256,
            i <= ts.len(),
            spec_check_timers(index@, ts@.take(i as int)) is None,
        decreases ts.len() - i,
    {
        assert(ts@.take(i + 1).drop_last() =~= ts@.take(i as int));
        proof {
            lemma_check_timers_prefix(index@, ts@, i + 1);
        }
        match &ts[i].target {
            Some(t) => {
                let a = check_id(index, t.as_str());
                if a.is_err() {
                    return a;
                }
            },
            None => {},
        }
        i += 1;
    }
    assert(ts@.take(i as int) =~= ts@);
    Ok(())
}

proof fn lemma_check_timers_prefix(recs: Seq<RecordView>, ts: Seq<TimerObject>, k: int)
    requires
        0 <= k <= ts.len(),
    ensures
        spec_check_timers(recs, ts.take(k)) is Some ==> spec_check_timers(recs, ts) == spec_check_timers(recs, ts.take(k)),
    decreases ts.len(),
{
    if k < ts.len() {
        assert(ts.drop_last().take(k) =~= ts.take(k));
        lemma_check_timers_prefix(recs, ts.drop_last(), k);
    } else {
        assert(ts.take(k) =~= ts);
    }
}

proof fn lemma_check_regions_prefix(recs: Seq<RecordView>, rs: Seq<RegionObject>, k: int)
    requires
        0 <= k <= rs.len(),
    ensures
        spec_check_regions(recs, rs.take(k)) is Some ==> spec_check_regions(recs, rs) == spec_check_regions(recs, rs.take(k)),
    decreases rs.len(),
{
    if k < rs.len() {
        assert(rs.drop_last().take(k) =~= rs.take(k));
        lemma_check_regions_prefix(recs, rs.drop_last(), k);
    } else {
        assert(rs.take(k) =~= rs);
    }
}

proof fn lemma_check_states_prefix(recs: Seq<RecordView>, ss: Seq<StateNode>, k: int)
    requires
        0 <= k <= ss.len(),
    ensures
        spec_check_states(recs, ss.take(k)) is Some ==> spec_check_states(recs, ss) == spec_check_states(recs, ss.take(k)),
    decreases ss.len(),
{
    if k < ss.len() {
        assert(ss.drop_last().take(k) =~= ss.take(k));
        lemma_check_states_prefix(recs, ss.drop_last(), k);
    } else {
        assert(ss.take(k) =~= ss);
    }
}

fn check_node(index: &StateIndex, s: &StateNode) -> (r: Result<(), EmitError>)
    requires
        index@.len() <= 256,
    ensures
        err_view(r) == spec_check_node(index@, *s),
    decreases s,
{
    match s {
        StateNode::Simple(x) => {
            let a = check_transitions(index, &x.transitions);
            if a.is_err() {
                return a;
            }
            check_timers(index, &x.timers)
        },
        StateNode::Composite(c) => {
            let a = check_transitions(index, &c.transitions);
            if a.is_err() {
                return a;
            }
            let b = check_timers(index, &c.timers);
            if b.is_err() {
                return b;
            }
            check_regions(index, &c.regions)
        },
        StateNode::Parallel(q) => {
            let a = check_transitions(index, &q.transitions);
            if a.is_err() {
                return a;
            }
            check_regions(index, &q.regions)
        },
        StateNode::Submachine(sm) => check_transitions(index, &sm.transitions),
        _ => Ok(()),
    }
}

fn check_regions(index: &StateIndex, rs: &Vec<RegionObject>) -> (r: Result<(), EmitError>)
    requires
        index@.len() <= 256,
    ensures
        err_view(r) == spec_check_regions(index@, rs@),
    decreases rs@,
{
    let mut i: usize = 0;
    while i < rs.len()
        invariant
            index@.len() <= 256,
            i <= rs.len(),
            spec_check_regions(index@, rs@.take(i as int)) is None,
        decreases rs.len() - i,
    {
        assert(rs@.take(i + 1).drop_last() =~= rs@.take(i as int));
        proof {
            lemma_check_regions_prefix(index@, rs@, i + 1);
        }
        let a = check_states(index, &rs[i].states);
        if a.is_err() {
            return a;
        }
        i += 1;
    }
    assert(rs@.take(i as int) =~= rs@);
    Ok(())
}

fn check_states(index: &StateIndex, ss: &Vec<StateNode>) -> (r: Result<(), EmitError>)
    requires
        index@.len() <= 256,
    ensures
        err_view(r) == spec_check_states(index@, ss@),
    decreases ss@,
{
    let mut i: usize = 0;
    while i < ss.len()
        invariant
            index@.len() <= 256,
            i <= ss.len(),
            spec_check_states(index@, ss@.take(i as int)) is None,
        decreases ss.len() - i,
    {
        assert(ss@.take(i + 1).drop_last() =~= ss@.take(i as int));
        proof {
            lemma_check_states_prefix(index@, ss@, i + 1);
        }
        let a = check_node(index, &ss[i]);
        if a.is_err() {
            return a;
        }
        i += 1;
    }
    assert(ss@.take(i as int) =~= ss@);
    Ok(())
}

/// Every transition source and target and every timer target of the
/// machine resolves in the index (empty ids are skipped); the first that
/// does not, in document order, is the error.
pub fn pre_flight_validate(machine: &MachineObject, index: &StateIndex) -> (r: Result<(), EmitError>)
    requires
        index@.len() <= 256,
    ensures
        err_view(r) == spec_check_states(index@, machine.root.states@),
{
    check_states(index, &machine.root.states)
}


// ---------------------------------------------------------------------
// The pipeline
// ---------------------------------------------------------------------

/// The error of one machine's own emission, once its submachines are done:
/// too many states, an unresolvable id, or an effective queue capacity
/// that is not a power of two.
pub open spec fn spec_own_error(m: MachineObject, cfg: CodegenConfig) -> Option<EmitErrorView> {
    let recs = spec_build(m).recs;
    let cap = spec_resolve_queue(cfg, m.queue).0;
    if recs.len() > 256 {
        Some(EmitErrorView::TooManyStates)
    } else {
        first_err(
            spec_check_states(recs, m.root.states@),
            if spec_is_power_of_two(cap as nat) {
                None
            } else {
                Some(EmitErrorView::QueueCapacityNotPowerOfTwo(cap))
            },
        )
    }
}

/// The error of a machine with its submachine templates: an empty machine
/// first, then the submachines in order, then the machine itself.
pub open spec fn spec_machine_error(m: MachineObject, cfg: CodegenConfig) -> Option<EmitErrorView>
    decreases m,
{
    if m.root.states@.len() == 0 {
        Some(EmitErrorView::EmptyMachine(m.name@))
    } else {
        first_err(spec_subs_error(m.submachines@, cfg), spec_own_error(m, cfg))
    }
}

pub open spec fn spec_subs_error(ms: Seq<MachineObject>, cfg: CodegenConfig) -> Option<EmitErrorView>
    decreases ms,
{
    if ms.len() == 0 {
        None
    } else {
        first_err(spec_subs_error(ms.drop_last(), cfg), spec_machine_error(ms.last(), cfg))
    }
}

/// The emission units of a machine, submachine templates first (post
/// order), each with the strategy it is emitted under.
pub open spec fn spec_units(m: MachineObject, eff: DispatchStrategy) -> Seq<(MachineObject, DispatchStrategy)>
    decreases m,
{
    spec_subs_units(m.submachines@, eff).push((m, eff))
}

pub open spec fn spec_subs_units(ms: Seq<MachineObject>, eff: DispatchStrategy) -> Seq<(MachineObject, DispatchStrategy)>
    decreases ms,
{
    if ms.len() == 0 {
        Seq::empty()
    } else {
        spec_subs_units(ms.drop_last(), eff) + spec_units(ms.last(), eff)
    }
}

/// The deferrals declared by the state with IR id `id` of machine `m`.
pub open spec fn spec_defers_of(m: MachineObject, id: Seq<char>) -> Seq<crate::ir::DeferDecl> {
    match defer::spec_defers_states(m.root.states@, id) {
        Some(ds) => ds,
        None => Seq::empty(),
    }
}

/// The limits past which emission of a machine stops short (a `u8` leaf
/// count, a 32-bit defer mask), for an indexable machine.
pub open spec fn spec_unit_fits(m: MachineObject) -> bool {
    let recs = spec_build(m).recs;
    recs.len() <= 256 ==> {
        &&& crate::region_layout::leaves_region(m.root) <= 255
        &&& forall|i: int|
            1 <= i < recs.len() ==> defer::spec_defers_fit(m.events@, #[trigger] spec_defers_of(m, recs[i].ir_id))
    }
}

/// A machine and all its submachine templates fit the limits.
pub open spec fn spec_tree_fits(m: MachineObject) -> bool
    decreases m,
{
    spec_subs_fit(m.submachines@) && spec_unit_fits(m)
}

pub open spec fn spec_subs_fit(ms: Seq<MachineObject>) -> bool
    decreases ms,
{
    ms.len() == 0 || (spec_subs_fit(ms.drop_last()) && spec_tree_fits(ms.last()))
}

/// `ctx` is the context built for machine `m` under `cfg` and strategy
/// `eff`: its index, parent table and layout, the resolved strategy and
/// the effective queue settings.
pub open spec fn spec_ctx_for(ctx: CtxView, m: MachineObject, cfg: CodegenConfig, eff: DispatchStrategy) -> bool {
    &&& *ctx.machine == m
    &&& *ctx.config == cfg
    &&& ctx.index@ == spec_build(m).recs
    &&& ctx_wf(ctx)
    &&& forall|i: int| 0 <= i < ctx.index@.len() ==> ctx.parents.parents@[i] as int == #[trigger] ctx.index@[i].parent
    &&& ctx.layout.slot_of@ == crate::region_layout::spec_slot_layout(m, ctx.index@)
    &&& ctx.layout.max_parallel_regions == crate::region_layout::leaves_region(m.root)
    &&& ctx.strategy == crate::config::spec_resolve(eff, ctx.index@.len())
    &&& ctx.queue_capacity == spec_resolve_queue(cfg, m.queue).0
    &&& ctx.queue_overflow == spec_resolve_queue(cfg, m.queue).1
}

/// The text of the configuration header of the machine in `ctx`.
#[verifier::opaque]
pub open spec fn spec_conf_content(ctx: CtxView) -> Seq<char> {
    let p = ctx.machine.name@;
    spec_header_block(ctx.config.license_spdx@, Some(p + ".fsm (compile-time configuration)"@)) + "\n"@
        + conf_header::spec_conf_body(
            spec_c_ident(p),
            ctx.queue_capacity as nat,
            spec_macro_name(ctx.queue_overflow),
            conf_header::spec_strategy_tag(ctx.strategy),
            ctx.layout.max_parallel_regions as nat,
        )
}

/// The text of the implementation header of the machine in `ctx`.
#[verifier::opaque]
pub open spec fn spec_impl_content(ctx: CtxView) -> Seq<char> {
    spec_header_block(ctx.config.license_spdx@, Some(ctx.machine.name@ + ".fsm (user-implemented externs)"@)) + "\n"@
        + impl_header::spec_impl_body(ctx)
}

/// The text of the public header of the machine in `ctx`.
#[verifier::opaque]
pub open spec fn spec_header_content(ctx: CtxView) -> Seq<char> {
    spec_header_block(ctx.config.license_spdx@, Some(ctx.machine.name@ + ".fsm (public API)"@)) + "\n"@
        + header::spec_header_body(ctx)
}

/// The text of the translation unit of the machine in `ctx`.
#[verifier::opaque]
pub open spec fn spec_source_content(ctx: CtxView) -> Seq<char> {
    spec_header_block(ctx.config.license_spdx@, Some(ctx.machine.name@ + ".fsm (translation unit)"@)) + "\n"@
        + source::spec_source_body(ctx)
}

/// The four files of one machine in `ctx`: configuration header,
/// implementation header, public header, translation unit.
pub open spec fn spec_files_of(ctx: CtxView, fs: Seq<EmittedFile>) -> bool {
    let p = ctx.machine.name@;
    &&& fs.len() == 4
    &&& fs[0].path@ == p + "_conf.h"@
    &&& fs[0].role == FileRole::ConfHeader
    &&& fs[0].content@ == spec_conf_content(ctx)
    &&& fs[1].path@ == p + "_impl.h"@
    &&& fs[1].role == FileRole::ImplHeader
    &&& fs[1].content@ == spec_impl_content(ctx)
    &&& fs[2].path@ == p + ".h"@
    &&& fs[2].role == FileRole::Header
    &&& fs[2].content@ == spec_header_content(ctx)
    &&& fs[3].path@ == p + ".c"@
    &&& fs[3].role == FileRole::Source
    &&& fs[3].content@ == spec_source_content(ctx)
}

/// `fs` are the four files of machine `m` emitted under `cfg` and `eff`.
#[verifier::opaque]
pub open spec fn spec_unit_files(m: MachineObject, cfg: CodegenConfig, eff: DispatchStrategy, fs: Seq<EmittedFile>) -> bool {
    exists|ctx: CtxView| #[trigger] spec_ctx_for(ctx, m, cfg, eff) && spec_files_of(ctx, fs)
}

/// `fs` are the files of the units `us`, four per unit, in order.
pub open spec fn spec_files_ok(us: Seq<(MachineObject, DispatchStrategy)>, cfg: CodegenConfig, fs: Seq<EmittedFile>) -> bool
    decreases us.len(),
{
    if us.len() == 0 {
        fs.len() == 0
    } else {
        &&& fs.len() >= 4
        &&& spec_files_ok(us.drop_last(), cfg, fs.take(fs.len() - 4))
        &&& spec_unit_files(us.last().0, cfg, us.last().1, fs.skip(fs.len() - 4))
    }
}

proof fn lemma_files_concat(a: Seq<(MachineObject, DispatchStrategy)>, b: Seq<(MachineObject, DispatchStrategy)>, cfg: CodegenConfig, f: Seq<EmittedFile>, g: Seq<EmittedFile>)
    requires
        spec_files_ok(a, cfg, f),
        spec_files_ok(b, cfg, g),
    ensures
        spec_files_ok(a + b, cfg, f + g),
    decreases b.len(),
{
    if b.len() == 0 {
        assert(a + b =~= a);
        assert(f + g =~= f);
    } else {
        let gl = g.len() - 4;
        lemma_files_concat(a, b.drop_last(), cfg, f, g.take(gl));
        assert((a + b).drop_last() =~= a + b.drop_last());
        assert((f + g).take(f.len() + gl) =~= f + g.take(gl));
        assert((f + g).skip(f.len() + gl) =~= g.skip(gl));
        assert((a + b).last() == b.last());
    }
}

/// The name of an overflow policy as the notes spell it.
pub open spec fn spec_policy_name(p: OverflowPolicy) -> Seq<char> {
    match p {
        OverflowPolicy::Assert => "Assert"@,
        OverflowPolicy::Drop => "Drop"@,
    }
}

/// What an override changed, capacity first, joined by `; `.
pub open spec fn spec_note_parts(n: QueueOverrideNote) -> Seq<char> {
    let cap = "capacity "@ + spec_decimal(n.in_source_capacity as nat) + " (in-source) overridden to "@
        + spec_decimal(n.effective_capacity as nat) + " by --queue-size / fsm.toml"@;
    let ovf = "overflow "@ + spec_policy_name(n.in_source_overflow) + " (in-source) overridden to "@
        + spec_policy_name(n.effective_overflow) + " by --queue-overflow / fsm.toml"@;
    if n.capacity_overridden && n.overflow_overridden {
        cap + "; "@ + ovf
    } else if n.capacity_overridden {
        cap
    } else if n.overflow_overridden {
        ovf
    } else {
        Seq::empty()
    }
}

/// The disclosure that an integrator override shadowed a machine's
/// explicit `queue {}` block.
pub open spec fn spec_note_text(name: Seq<char>, n: QueueOverrideNote) -> Seq<char> {
    "machine `"@ + name + "`: an integrator override shadowed its in-source `queue {}` block — "@
        + spec_note_parts(n)
        + ". The generated firmware uses the override; the in-source value is NOT in effect (this disclosure exists so the override is never silent)."@
}

/// The notes of the units `us`: one per unit whose explicit queue block
/// an override shadowed.
pub open spec fn spec_notes_of(us: Seq<(MachineObject, DispatchStrategy)>, cfg: CodegenConfig) -> Seq<Seq<char>>
    decreases us.len(),
{
    if us.len() == 0 {
        Seq::empty()
    } else {
        spec_notes_of(us.drop_last(), cfg) + match spec_resolve_queue(cfg, us.last().0.queue).2 {
            Some(n) => seq![spec_note_text(us.last().0.name@, n)],
            None => Seq::empty(),
        }
    }
}

proof fn lemma_notes_concat(a: Seq<(MachineObject, DispatchStrategy)>, b: Seq<(MachineObject, DispatchStrategy)>, cfg: CodegenConfig)
    ensures
        spec_notes_of(a + b, cfg) == spec_notes_of(a, cfg) + spec_notes_of(b, cfg),
    decreases b.len(),
{
    if b.len() == 0 {
        assert(a + b =~= a);
        assert(spec_notes_of(a, cfg) + spec_notes_of(b, cfg) =~= spec_notes_of(a, cfg));
    } else {
        lemma_notes_concat(a, b.drop_last(), cfg);
        assert((a + b).drop_last() =~= a + b.drop_last());
        assert((a + b).last() == b.last());
        let t = match spec_resolve_queue(cfg, b.last().0.queue).2 {
            Some(n) => seq![spec_note_text(b.last().0.name@, n)],
            None => Seq::<Seq<char>>::empty(),
        };
        assert(spec_notes_of(a, cfg) + spec_notes_of(b.drop_last(), cfg) + t =~= spec_notes_of(a, cfg) + (spec_notes_of(b.drop_last(), cfg) + t));
    }
}

/// The views of a vector of strings.
pub open spec fn strings_view(v: Seq<String>) -> Seq<Seq<char>> {
    v.map_values(|s: String| s@)
}

proof fn lemma_subs_error_prefix(ms: Seq<MachineObject>, cfg: CodegenConfig, k: int)
    requires
        0 <= k <= ms.len(),
    ensures
        spec_subs_error(ms.take(k), cfg) is Some ==> spec_subs_error(ms, cfg) == spec_subs_error(ms.take(k), cfg),
    decreases ms.len(),
{
    if k < ms.len() {
        assert(ms.drop_last().take(k) =~= ms.take(k));
        lemma_subs_error_prefix(ms.drop_last(), cfg, k);
    } else {
        assert(ms.take(k) =~= ms);
    }
}

proof fn lemma_subs_fit_elem(ms: Seq<MachineObject>, i: int)
    requires
        spec_subs_fit(ms),
        0 <= i < ms.len(),
    ensures
        spec_tree_fits(ms[i]),
    decreases ms.len(),
{
    if i < ms.len() - 1 {
        lemma_subs_fit_elem(ms.drop_last(), i);
    }
}

fn policy_name(p: OverflowPolicy) -> (r: &'static str)
    ensures
        r@ == spec_policy_name(p),
{
    match p {
        OverflowPolicy::Assert => "Assert",
        OverflowPolicy::Drop => "Drop",
    }
}

fn note_text(name: &str, n: &QueueOverrideNote) -> (r: String)
    ensures
        r@ == spec_note_text(name@, *n),
{
    let mut cap = "capacity ".to_owned();
    push_decimal(&mut cap, n.in_source_capacity as u64);
    cap.append(" (in-source) overridden to ");
    push_decimal(&mut cap, n.effective_capacity as u64);
    cap.append(" by --queue-size / fsm.toml");
    let mut ovf = "overflow ".to_owned();
    ovf.append(policy_name(n.in_source_overflow));
    ovf.append(" (in-source) overridden to ");
    ovf.append(policy_name(n.effective_overflow));
    ovf.append(" by --queue-overflow / fsm.toml");
    let parts = if n.capacity_overridden && n.overflow_overridden {
        let mut b = cap;
        b.append("; ");
        b.append(ovf.as_str());
        b
    } else if n.capacity_overridden {
        cap
    } else if n.overflow_overridden {
        ovf
    } else {
        String::new()
    };
    let mut s = "machine `".to_owned();
    s.append(name);
    s.append("`: an integrator override shadowed its in-source `queue {}` block — ");
    s.append(parts.as_str());
    s.append(". The generated firmware uses the override; the in-source value is NOT in effect (this disclosure exists so the override is never silent).");
    s
}

/// Emit one machine's four files into `files`, after those of its
/// submachine templates, under the unresolved strategy `effective`; the
/// override disclosures go to `notes`.
#[verifier::rlimit(50)]
pub fn emit_machine_recursive(
    machine: &MachineObject,
    config: &CodegenConfig,
    effective: DispatchStrategy,
    files: &mut Vec<EmittedFile>,
    notes: &mut Vec<String>,
) -> (r: Result<(), EmitError>)
    requires
        spec_tree_fits(*machine),
    ensures
        err_view(r) == spec_machine_error(*machine, *config),
        final(files)@.len() >= old(files)@.len(),
        final(files)@.take(old(files)@.len() as int) == old(files)@,
        final(notes)@.len() >= old(notes)@.len(),
        final(notes)@.take(old(notes)@.len() as int) == old(notes)@,
        r is Ok ==> spec_files_ok(spec_units(*machine, effective), *config, final(files)@.skip(old(files)@.len() as int)),
        r is Ok ==> strings_view(final(notes)@) == strings_view(old(notes)@) + spec_notes_of(spec_units(*machine, effective), *config),
    decreases machine,
{
    let ghost f0 = files@;
    let ghost n0 = notes@;
    if machine.root.states.len() == 0 {
        assert(files@.take(f0.len() as int) =~= f0);
        assert(notes@.take(n0.len() as int) =~= n0);
        return Err(EmitError::EmptyMachine(machine.name.clone()));
    }
    let subs = &machine.submachines;
    assert(files@.take(f0.len() as int) =~= f0);
    assert(notes@.take(n0.len() as int) =~= n0);
    assert(files@.skip(f0.len() as int) =~= Seq::<EmittedFile>::empty());
    assert(strings_view(notes@) =~= strings_view(n0) + spec_notes_of(spec_subs_units(subs@.take(0), effective), *config));
    let mut i: usize = 0;
    while i < subs.len()
        invariant
            spec_subs_fit(subs@),
            *subs == machine.submachines,
            machine.root.states@.len() > 0,
            f0 == old(files)@,
            n0 == old(notes)@,
            i <= subs.len(),
            spec_subs_error(subs@.take(i as int), *config) is None,
            files@.len() >= f0.len(),
            files@.take(f0.len() as int) == f0,
            notes@.len() >= n0.len(),
            notes@.take(n0.len() as int) == n0,
            spec_files_ok(spec_subs_units(subs@.take(i as int), effective), *config, files@.skip(f0.len() as int)),
            strings_view(notes@) == strings_view(n0) + spec_notes_of(spec_subs_units(subs@.take(i as int), effective), *config),
        decreases subs.len() - i,
    {
        let ghost f1 = files@;
        let ghost n1 = notes@;
        proof {
            lemma_subs_fit_elem(subs@, i as int);
            lemma_subs_error_prefix(subs@, *config, i + 1);
            assert(subs@.take(i + 1).drop_last() =~= subs@.take(i as int));
            assert(subs@.take(i + 1).last() == subs@[i as int]);
        }
        let r = emit_machine_recursive(&subs[i], config, effective, files, notes);
        assert(files@.take(f0.len() as int) =~= f1.take(f0.len() as int));
        assert(notes@.take(n0.len() as int) =~= n1.take(n0.len() as int));
        if r.is_err() {
            return r;
        }
        proof {
            let a = spec_subs_units(subs@.take(i as int), effective);
            let b = spec_units(subs@[i as int], effective);
            assert(spec_subs_units(subs@.take(i + 1), effective) == a + b);
            assert(f1.skip(f0.len() as int) + files@.skip(f1.len() as int) =~= files@.skip(f0.len() as int)) by {
                assert(files@.take(f1.len() as int) == f1);
            }
            lemma_files_concat(a, b, *config, f1.skip(f0.len() as int), files@.skip(f1.len() as int));
            lemma_notes_concat(a, b, *config);
            assert(strings_view(notes@) =~= strings_view(n1) + spec_notes_of(b, *config)) by {
                assert(notes@.take(n1.len() as int) == n1);
            }
        }
        i += 1;
    }
    proof {
        assert(subs@.take(i as int) =~= subs@);
    }
    let ghost fs = files@;
    let ghost ns = notes@;
    let r = emit_own(machine, config, effective, files, notes);
    assert(files@.take(f0.len() as int) =~= fs.take(f0.len() as int));
    assert(notes@.take(n0.len() as int) =~= ns.take(n0.len() as int));
    if r.is_err() {
        return r;
    }
    proof {
        let a = spec_subs_units(subs@, effective);
        let us = spec_units(*machine, effective);
        let one = seq![(*machine, effective)];
        assert(us =~= a + one);
        assert(files@.take(fs.len() as int) == fs);
        assert(fs.skip(f0.len() as int) + files@.skip(fs.len() as int) =~= files@.skip(f0.len() as int));
        assert(spec_files_ok(one, *config, files@.skip(fs.len() as int))) by {
            assert(one.drop_last() =~= Seq::<(MachineObject, DispatchStrategy)>::empty());
            let g = files@.skip(fs.len() as int);
            assert(g.len() == 4);
            assert(g.take(0) =~= Seq::<EmittedFile>::empty());
            assert(spec_files_ok(Seq::<(MachineObject, DispatchStrategy)>::empty(), *config, g.take(0)));
            assert(g.skip(0) =~= g);
            assert(one.last() == (*machine, effective));
        }
        lemma_files_concat(a, one, *config, fs.skip(f0.len() as int), files@.skip(fs.len() as int));
        lemma_notes_concat(a, one, *config);
        assert(notes@.take(ns.len() as int) == ns);
    }
    Ok(())
}

/// Emit the four files of one machine itself (its submachines are done).
fn emit_own(
    machine: &MachineObject,
    config: &CodegenConfig,
    effective: DispatchStrategy,
    files: &mut Vec<EmittedFile>,
    notes: &mut Vec<String>,
) -> (r: Result<(), EmitError>)
    requires
        spec_unit_fits(*machine),
    ensures
        err_view(r) == spec_own_error(*machine, *config),
        final(files)@.len() >= old(files)@.len(),
        final(files)@.take(old(files)@.len() as int) == old(files)@,
        final(notes)@.len() >= old(notes)@.len(),
        final(notes)@.take(old(notes)@.len() as int) == old(notes)@,
        r is Ok ==> final(files)@.len() == old(files)@.len() + 4,
        r is Ok ==> spec_unit_files(*machine, *config, effective, final(files)@.skip(old(files)@.len() as int)),
        r is Ok ==> strings_view(final(notes)@) == strings_view(old(notes)@) + spec_notes_of(seq![(*machine, effective)], *config),
{
    let ghost fs = files@;
    let ghost ns = notes@;
    let ghost n0 = notes@;
    let index = match crate::state_index::build_state_index(machine) {
        Ok(ix) => ix,
        Err(e) => {
            assert(files@.take(fs.len() as int) =~= fs);
            assert(notes@.take(ns.len() as int) =~= ns);
            return Err(e);
        },
    };
    assert(files@.take(fs.len() as int) =~= fs);
    assert(notes@.take(ns.len() as int) =~= ns);
    let pf = pre_flight_validate(machine, &index);
    if pf.is_err() {
        return pf;
    }
    let parents = crate::parent_table::build_parent_table(&index);
    let layout = crate::region_layout::build_region_layout(machine, &index);
    let resolved = effective.resolve(index.count());
    let (queue_capacity, queue_overflow, queue_note) = config.resolve_queue(&machine.queue);
    match queue_note {
        Some(n) => {
            let t = note_text(machine.name.as_str(), &n);
            notes.push(t);
        },
        None => {},
    }
    assert(notes@.take(ns.len() as int) =~= ns);
    if !is_power_of_two(queue_capacity) {
        return Err(EmitError::QueueCapacityNotPowerOfTwo(queue_capacity));
    }
    let ctx = MachineEmitCtx {
        machine,
        index: &index,
        parents: &parents,
        layout: &layout,
        config,
        strategy: resolved,
        queue_capacity,
        queue_overflow,
    };
    proof {
        assert forall|k: int| 1 <= k < ctx.index@.len() implies defer::spec_defers_fit(
            ctx.machine.events@,
            #[trigger] defer::spec_state_defers(ctx@, ctx.index@[k].ir_id),
        ) by {
            assert(defer::spec_state_defers(ctx@, ctx.index@[k].ir_id) == spec_defers_of(*machine, ctx.index@[k].ir_id));
        }
    }
    push_ctx_files(&ctx, files);
    proof {
        let own = files@.skip(fs.len() as int);
        lemma_own_files(ctx@, *machine, *config, effective, own);
        assert(files@.take(fs.len() as int) =~= fs);
        let us = seq![(*machine, effective)];
        assert(us.drop_last() =~= Seq::<(MachineObject, DispatchStrategy)>::empty());
        assert(spec_notes_of(Seq::<(MachineObject, DispatchStrategy)>::empty(), *config) == Seq::<Seq<char>>::empty());
        assert(spec_notes_of(us.drop_last(), *config) == Seq::<Seq<char>>::empty());
        assert(us.last() == (*machine, effective));
        assert(spec_resolve_queue(*config, machine.queue).2 == queue_note);
        match queue_note {
            Some(n) => {
                assert(strings_view(notes@) =~= strings_view(ns).push(spec_note_text(machine.name@, n)));
                assert(spec_notes_of(us, *config) =~= seq![spec_note_text(machine.name@, n)]);
            },
            None => {
                assert(notes@ =~= ns);
                assert(spec_notes_of(us, *config) =~= Seq::<Seq<char>>::empty());
            },
        }
        assert(strings_view(notes@) =~= strings_view(ns) + spec_notes_of(us, *config));
    }
    Ok(())
}

proof fn lemma_own_files(ctx: CtxView, m: MachineObject, cfg: CodegenConfig, eff: DispatchStrategy, own: Seq<EmittedFile>)
    requires
        spec_ctx_for(ctx, m, cfg, eff),
        spec_files_of(ctx, own),
    ensures
        spec_unit_files(m, cfg, eff, own),
{
    reveal(spec_unit_files);
}

fn conf_file(ctx: &MachineEmitCtx<'_>) -> (f: EmittedFile)
    ensures
        f.path@ == ctx.machine.name@ + "_conf.h"@,
        f.role == FileRole::ConfHeader,
        f.content@ == spec_conf_content(ctx@),
{
    let f = conf_header::emit(ctx);
    proof {
        reveal(spec_conf_content);
    }
    f
}

fn impl_file(ctx: &MachineEmitCtx<'_>) -> (f: EmittedFile)
    ensures
        f.path@ == ctx.machine.name@ + "_impl.h"@,
        f.role == FileRole::ImplHeader,
        f.content@ == spec_impl_content(ctx@),
{
    let f = impl_header::emit(ctx);
    proof {
        reveal(spec_impl_content);
    }
    f
}

fn header_file(ctx: &MachineEmitCtx<'_>) -> (f: EmittedFile)
    requires
        ctx.index.wf(),
    ensures
        f.path@ == ctx.machine.name@ + ".h"@,
        f.role == FileRole::Header,
        f.content@ == spec_header_content(ctx@),
{
    let f = header::emit(ctx);
    proof {
        reveal(spec_header_content);
    }
    f
}

fn source_file(ctx: &MachineEmitCtx<'_>) -> (f: EmittedFile)
    requires
        ctx_wf(ctx@),
        defer::spec_masks_fit(ctx@),
    ensures
        f.path@ == ctx.machine.name@ + ".c"@,
        f.role == FileRole::Source,
        f.content@ == spec_source_content(ctx@),
{
    let f = source::emit(ctx);
    proof {
        reveal(spec_source_content);
    }
    f
}

/// Append the four files of the machine in `ctx`.
fn push_ctx_files(ctx: &MachineEmitCtx<'_>, files: &mut Vec<EmittedFile>)
    requires
        ctx_wf(ctx@),
        defer::spec_masks_fit(ctx@),
    ensures
        final(files)@.len() == old(files)@.len() + 4,
        final(files)@.take(old(files)@.len() as int) == old(files)@,
        spec_files_of(ctx@, final(files)@.skip(old(files)@.len() as int)),
{
    let ghost fs = files@;
    let f_conf = conf_file(ctx);
    let f_impl = impl_file(ctx);
    let f_head = header_file(ctx);
    let f_src = source_file(ctx);
    files.push(f_conf);
    files.push(f_impl);
    files.push(f_head);
    files.push(f_src);
    proof {
        assert(files@.take(fs.len() as int) =~= fs);
        assert(files@.skip(fs.len() as int) =~= seq![f_conf, f_impl, f_head, f_src]);
    }
}

/// The strategy a top-level machine is emitted under before `Auto` is
/// resolved: its override, else the global strategy.
pub open spec fn spec_strategy_for(cfg: CodegenConfig, name: Seq<char>) -> DispatchStrategy {
    match spec_override_for(cfg.machine_strategy_overrides@, name) {
        Some(s) => s,
        None => cfg.strategy,
    }
}

/// The emission units of the top-level machines, in order.
pub open spec fn spec_top_units(ms: Seq<MachineObject>, cfg: CodegenConfig) -> Seq<(MachineObject, DispatchStrategy)>
    decreases ms.len(),
{
    if ms.len() == 0 {
        Seq::empty()
    } else {
        spec_top_units(ms.drop_last(), cfg) + spec_units(ms.last(), spec_strategy_for(cfg, ms.last().name@))
    }
}

/// The outcome of emitting a whole description: the fallback capacity is
/// checked first, then each top-level machine in order.
pub open spec fn spec_emit_error(ir: Ir, cfg: CodegenConfig) -> Option<EmitErrorView> {
    if !spec_is_power_of_two(cfg.queue_capacity as nat) {
        Some(EmitErrorView::QueueCapacityNotPowerOfTwo(cfg.queue_capacity as u32))
    } else {
        spec_subs_error(ir.machines@, cfg)
    }
}

/// What `emit` returns for `ir` under `cfg`: the error of
/// `spec_emit_error` when there is one; otherwise the HAL header, then the
/// files of every unit in order, and the notes of the units.
pub open spec fn spec_emit_outcome(ir: Ir, cfg: CodegenConfig, r: Result<EmittedFiles, EmitError>) -> bool {
    match r {
        Ok(out) => {
            &&& spec_emit_error(ir, cfg) is None
            &&& out.files@.len() >= 1
            &&& out.files@[0].path@ == "fsm_hal.h"@
            &&& out.files@[0].role == FileRole::Hal
            &&& out.files@[0].content@ == spec_header_block(cfg.license_spdx@, None) + "\n"@ + hal::spec_hal_body()
            &&& spec_files_ok(spec_top_units(ir.machines@, cfg), cfg, out.files@.skip(1))
            &&& strings_view(out.notes@) == spec_notes_of(spec_top_units(ir.machines@, cfg), cfg)
        },
        Err(e) => spec_emit_error(ir, cfg) == Some(e@),
    }
}

/// The files of a list by their views: path, role and text, in order.
pub open spec fn files_view(fs: Seq<EmittedFile>) -> Seq<(Seq<char>, FileRole, Seq<char>)> {
    fs.map_values(|f: EmittedFile| (f.path@, f.role, f.content@))
}

/// The result of `emit` by its views: the error, or the files and notes.
pub open spec fn emit_result_view(r: Result<EmittedFiles, EmitError>) -> Result<(Seq<(Seq<char>, FileRole, Seq<char>)>, Seq<Seq<char>>), EmitErrorView> {
    match r {
        Ok(out) => Ok((files_view(out.files@), strings_view(out.notes@))),
        Err(e) => Err(e@),
    }
}

/// The context of a unit is fixed by its machine, configuration and
/// strategy.
proof fn lemma_ctx_unique(c1: CtxView, c2: CtxView, m: MachineObject, cfg: CodegenConfig, eff: DispatchStrategy)
    requires
        spec_ctx_for(c1, m, cfg, eff),
        spec_ctx_for(c2, m, cfg, eff),
    ensures
        c1 == c2,
{
    assert(c1.index.s =~= c2.index.s);
    assert(c1.index == c2.index);
    assert forall|i: int| 0 <= i < c1.parents.parents.s.len() implies c1.parents.parents.s[i] == c2.parents.parents.s[i] by {
        assert(c1.parents.parents@[i] as int == c1.index@[i].parent);
        assert(c2.parents.parents@[i] as int == c2.index@[i].parent);
    }
    assert(c1.parents.parents.s =~= c2.parents.parents.s);
    assert(c1.parents.parents == c2.parents.parents);
    assert(c1.parents == c2.parents);
    assert(c1.layout.slot_of.s =~= c2.layout.slot_of.s);
    assert(c1.layout.slot_of == c2.layout.slot_of);
    assert(c1.layout == c2.layout);
    assert(c1.machine == c2.machine);
    assert(c1.config == c2.config);
}

proof fn lemma_unit_files_agree(m: MachineObject, cfg: CodegenConfig, eff: DispatchStrategy, f1: Seq<EmittedFile>, f2: Seq<EmittedFile>)
    requires
        spec_unit_files(m, cfg, eff, f1),
        spec_unit_files(m, cfg, eff, f2),
    ensures
        files_view(f1) == files_view(f2),
{
    reveal(spec_unit_files);
    let c1 = choose|ctx: CtxView| #[trigger] spec_ctx_for(ctx, m, cfg, eff) && spec_files_of(ctx, f1);
    let c2 = choose|ctx: CtxView| #[trigger] spec_ctx_for(ctx, m, cfg, eff) && spec_files_of(ctx, f2);
    lemma_ctx_unique(c1, c2, m, cfg, eff);
    assert(files_view(f1) =~= files_view(f2));
}

proof fn lemma_files_ok_agree(us: Seq<(MachineObject, DispatchStrategy)>, cfg: CodegenConfig, f1: Seq<EmittedFile>, f2: Seq<EmittedFile>)
    requires
        spec_files_ok(us, cfg, f1),
        spec_files_ok(us, cfg, f2),
    ensures
        files_view(f1) == files_view(f2),
    decreases us.len(),
{
    if us.len() == 0 {
        assert(files_view(f1) =~= files_view(f2));
    } else {
        let n = f1.len() - 4;
        let n2 = f2.len() - 4;
        lemma_files_ok_agree(us.drop_last(), cfg, f1.take(n), f2.take(n2));
        assert(files_view(f1.take(n)).len() == n);
        assert(n == n2);
        lemma_unit_files_agree(us.last().0, cfg, us.last().1, f1.skip(n), f2.skip(n));
        assert(files_view(f1) =~= files_view(f1.take(n)) + files_view(f1.skip(n)));
        assert(files_view(f2) =~= files_view(f2.take(n)) + files_view(f2.skip(n)));
    }
}

/// Emission is deterministic: two results that `emit` may give for one
/// description and one configuration are equal by their views. Both fail
/// with the same error, or both succeed with the same files (path, role and
/// text, in order) and the same notes.
pub proof fn law_emit_deterministic(
    ir: Ir,
    cfg: CodegenConfig,
    r1: Result<EmittedFiles, EmitError>,
    r2: Result<EmittedFiles, EmitError>,
)
    requires
        spec_emit_outcome(ir, cfg, r1),
        spec_emit_outcome(ir, cfg, r2),
    ensures
        emit_result_view(r1) == emit_result_view(r2),
{
    match (r1, r2) {
        (Ok(o1), Ok(o2)) => {
            let us = spec_top_units(ir.machines@, cfg);
            let (a, b) = (o1.files@, o2.files@);
            lemma_files_ok_agree(us, cfg, a.skip(1), b.skip(1));
            assert(a =~= seq![a[0]] + a.skip(1));
            assert(b =~= seq![b[0]] + b.skip(1));
            assert(files_view(a) =~= files_view(seq![a[0]]) + files_view(a.skip(1)));
            assert(files_view(b) =~= files_view(seq![b[0]]) + files_view(b.skip(1)));
            assert(files_view(seq![a[0]]) =~= files_view(seq![b[0]]));
            assert(files_view(a) =~= files_view(b));
        },
        (Err(e1), Err(e2)) => {},
        _ => {},
    }
}

/// Emit every machine of `ir`: the shared HAL header first, then each
/// top-level machine's submachine templates and its own four files.
/// A description with a valid fallback capacity must stay inside the
/// limits that `limits::ir_fits_limits` tests.
pub fn emit(ir: &Ir, config: &CodegenConfig) -> (r: Result<EmittedFiles, EmitError>)
    requires
        spec_is_power_of_two(config.queue_capacity as nat) ==> spec_subs_fit(ir.machines@),
    ensures
        spec_emit_outcome(*ir, *config, r),
{
    if !is_power_of_two(config.queue_capacity as u32) {
        return Err(EmitError::QueueCapacityNotPowerOfTwo(config.queue_capacity as u32));
    }
    let mut files: Vec<EmittedFile> = Vec::new();
    let mut notes: Vec<String> = Vec::new();
    files.push(hal::emit_hal_header(config));
    let ghost h = files@;
    let ms = &ir.machines;
    assert(files@.skip(1) =~= Seq::<EmittedFile>::empty());
    assert(strings_view(notes@) =~= Seq::<Seq<char>>::empty());
    let mut i: usize = 0;
    while i < ms.len()
        invariant
            spec_subs_fit(ms@),
            *ms == ir.machines,
            spec_is_power_of_two(config.queue_capacity as nat),
            i <= ms.len(),
            spec_subs_error(ms@.take(i as int), *config) is None,
            files@.len() >= 1,
            files@[0] == h[0],
            h.len() == 1,
            spec_files_ok(spec_top_units(ms@.take(i as int), *config), *config, files@.skip(1)),
            strings_view(notes@) == spec_notes_of(spec_top_units(ms@.take(i as int), *config), *config),
        decreases ms.len() - i,
    {
        let ghost f1 = files@;
        let ghost n1 = notes@;
        proof {
            lemma_subs_fit_elem(ms@, i as int);
            lemma_subs_error_prefix(ms@, *config, i + 1);
            assert(ms@.take(i + 1).drop_last() =~= ms@.take(i as int));
            assert(ms@.take(i + 1).last() == ms@[i as int]);
        }
        let effective = config.strategy_for(ms[i].name.as_str());
        let r = emit_machine_recursive(&ms[i], config, effective, &mut files, &mut notes);
        if r.is_err() {
            return match r {
                Err(e) => Err(e),
                Ok(_) => Err(EmitError::TooManyStates),
            };
        }
        proof {
            let a = spec_top_units(ms@.take(i as int), *config);
            let b = spec_units(ms@[i as int], effective);
            assert(spec_top_units(ms@.take(i + 1), *config) == a + b);
            assert(files@.take(f1.len() as int) == f1);
            assert(f1.skip(1) + files@.skip(f1.len() as int) =~= files@.skip(1));
            lemma_files_concat(a, b, *config, f1.skip(1), files@.skip(f1.len() as int));
            lemma_notes_concat(a, b, *config);
            assert(notes@.take(n1.len() as int) == n1);
            assert(strings_view(notes@) =~= strings_view(n1) + spec_notes_of(b, *config));
            assert(files@[0] == f1[0]);
        }
        i += 1;
    }
    proof {
        assert(ms@.take(i as int) =~= ms@);
    }
    Ok(EmittedFiles { files, notes })
}


/// The SPDX line every emitted file begins with.
pub open spec fn spec_spdx_line(license: Seq<char>) -> Seq<char> {
    "/* SPDX-License-Identifier: "@ + license + " */\n"@
}

proof fn lemma_banner_prefix(license: Seq<char>, source: Option<Seq<char>>, rest: Seq<char>)
    ensures
        spec_spdx_line(license).is_prefix_of(spec_header_block(license, source) + rest),
{
    let a = spec_spdx_line(license);
    let b = spec_header_block(license, source) + rest;
    let tail = match source {
        Some(s) => "/* Emitted from "@ + s + ". Edits are overwritten on the next run. */\n"@,
        None => Seq::<char>::empty(),
    };
    assert(b =~= a + (tail + rest));
    assert(b.subrange(0, a.len() as int) =~= a);
}

proof fn lemma_conf_spdx(ctx: CtxView)
    ensures
        spec_spdx_line(ctx.config.license_spdx@).is_prefix_of(spec_conf_content(ctx)),
{
    reveal(spec_conf_content);
    let p = ctx.machine.name@;
    let c = conf_header::spec_conf_body(
        spec_c_ident(p),
        ctx.queue_capacity as nat,
        spec_macro_name(ctx.queue_overflow),
        conf_header::spec_strategy_tag(ctx.strategy),
        ctx.layout.max_parallel_regions as nat,
    );
    let src = Some(p + ".fsm (compile-time configuration)"@);
    lemma_banner_prefix(ctx.config.license_spdx@, src, "\n"@ + c);
    assert(spec_conf_content(ctx) =~= spec_header_block(ctx.config.license_spdx@, src) + ("\n"@ + c));
}

proof fn lemma_impl_spdx(ctx: CtxView)
    ensures
        spec_spdx_line(ctx.config.license_spdx@).is_prefix_of(spec_impl_content(ctx)),
{
    reveal(spec_impl_content);
    let i = impl_header::spec_impl_body(ctx);
    let src = Some(ctx.machine.name@ + ".fsm (user-implemented externs)"@);
    lemma_banner_prefix(ctx.config.license_spdx@, src, "\n"@ + i);
    assert(spec_impl_content(ctx) =~= spec_header_block(ctx.config.license_spdx@, src) + ("\n"@ + i));
}

proof fn lemma_header_spdx(ctx: CtxView)
    ensures
        spec_spdx_line(ctx.config.license_spdx@).is_prefix_of(spec_header_content(ctx)),
{
    reveal(spec_header_content);
    let h = header::spec_header_body(ctx);
    let src = Some(ctx.machine.name@ + ".fsm (public API)"@);
    lemma_banner_prefix(ctx.config.license_spdx@, src, "\n"@ + h);
    assert(spec_header_content(ctx) =~= spec_header_block(ctx.config.license_spdx@, src) + ("\n"@ + h));
}

proof fn lemma_source_spdx(ctx: CtxView)
    ensures
        spec_spdx_line(ctx.config.license_spdx@).is_prefix_of(spec_source_content(ctx)),
{
    reveal(spec_source_content);
    let b = source::spec_source_body(ctx);
    let src = Some(ctx.machine.name@ + ".fsm (translation unit)"@);
    lemma_banner_prefix(ctx.config.license_spdx@, src, "\n"@ + b);
    assert(spec_source_content(ctx) =~= spec_header_block(ctx.config.license_spdx@, src) + ("\n"@ + b));
}

/// Law: every file emitted for the units `us` under `cfg` begins with the
/// SPDX line of the configured license.
pub proof fn law_files_carry_spdx(us: Seq<(MachineObject, DispatchStrategy)>, cfg: CodegenConfig, fs: Seq<EmittedFile>)
    requires
        spec_files_ok(us, cfg, fs),
    ensures
        forall|k: int| 0 <= k < fs.len() ==> spec_spdx_line(cfg.license_spdx@).is_prefix_of(#[trigger] fs[k].content@),
    decreases us.len(),
{
    if us.len() > 0 {
        let n = fs.len() - 4;
        law_files_carry_spdx(us.drop_last(), cfg, fs.take(n));
        let own = fs.skip(n);
        reveal(spec_unit_files);
        let ctx = choose|ctx: CtxView| #[trigger] spec_ctx_for(ctx, us.last().0, cfg, us.last().1) && spec_files_of(ctx, own);
        lemma_conf_spdx(ctx);
        lemma_impl_spdx(ctx);
        lemma_header_spdx(ctx);
        lemma_source_spdx(ctx);
        assert forall|k: int| 0 <= k < fs.len() implies spec_spdx_line(cfg.license_spdx@).is_prefix_of(#[trigger] fs[k].content@) by {
            if k < n {
                assert(fs[k] == fs.take(n)[k]);
            } else {
                assert(fs[k] == own[k - n]);
            }
        }
    }
}


/// The HAL include every configuration header carries.
pub open spec fn spec_hal_include() -> Seq<char> {
    "#include \"fsm_hal.h\""@
}

proof fn lemma_conf_includes_hal(ctx: CtxView)
    ensures
        crate::text::spec_contains_str(spec_conf_content(ctx), spec_hal_include()),
{
    reveal(spec_conf_content);
    let p = ctx.machine.name@;
    let m = spec_c_ident(p);
    let banner = spec_header_block(ctx.config.license_spdx@, Some(p + ".fsm (compile-time configuration)"@)) + "\n"@;
    let macros = conf_header::spec_conf_macros(
        m,
        ctx.queue_capacity as nat,
        spec_macro_name(ctx.queue_overflow),
        conf_header::spec_strategy_tag(ctx.strategy),
        ctx.layout.max_parallel_regions as nat,
    );
    reveal_strlit("_CONF_H\n\n#include \"fsm_hal.h\"\n\n");
    reveal_strlit("#include \"fsm_hal.h\"");
    let lit = "_CONF_H\n\n#include \"fsm_hal.h\"\n\n"@;
    let x = banner + ("#ifndef "@ + m + "_CONF_H\n#define "@ + m);
    let c = spec_conf_content(ctx);
    assert(c == banner + (conf_header::spec_conf_head(m) + macros));
    assert(c =~= x + lit + macros);
    let i: int = x.len() as int + 9;
    let pat = spec_hal_include();
    assert(c.subrange(i, i + pat.len() as int) =~= pat);
}

/// Law: the configuration header of every emitted machine includes the
/// HAL header.
pub proof fn law_conf_headers_include_hal(us: Seq<(MachineObject, DispatchStrategy)>, cfg: CodegenConfig, fs: Seq<EmittedFile>)
    requires
        spec_files_ok(us, cfg, fs),
    ensures
        forall|k: int|
            0 <= k < fs.len() && #[trigger] fs[k].role == FileRole::ConfHeader ==> crate::text::spec_contains_str(
                fs[k].content@,
                spec_hal_include(),
            ),
    decreases us.len(),
{
    if us.len() > 0 {
        let n = fs.len() - 4;
        law_conf_headers_include_hal(us.drop_last(), cfg, fs.take(n));
        let own = fs.skip(n);
        reveal(spec_unit_files);
        let ctx = choose|ctx: CtxView| #[trigger] spec_ctx_for(ctx, us.last().0, cfg, us.last().1) && spec_files_of(ctx, own);
        lemma_conf_includes_hal(ctx);
        assert forall|k: int| 0 <= k < fs.len() && #[trigger] fs[k].role == FileRole::ConfHeader implies crate::text::spec_contains_str(
            fs[k].content@,
            spec_hal_include(),
        ) by {
            if k < n {
                assert(fs[k] == fs.take(n)[k]);
            } else {
                assert(fs[k] == own[k - n]);
            }
        }
    }
}

} // verus!
