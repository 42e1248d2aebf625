//! The machine description that code generation reads: machines, regions,
//! the state tree, transitions, timers, expressions and statements.
//!
//! Only what the generator reads is held here. Ids and names are plain
//! strings; a floating-point literal is held by its decimal rendering.

use vstd::prelude::*;

verus! {

/// A whole description: one or more top-level machines.
#[derive(Debug)]
pub struct Ir {
    pub machines: Vec<MachineObject>,
}

/// One machine: its context, events, externs, state tree, submachine
/// templates and queue configuration.
#[derive(Debug)]
pub struct MachineObject {
    pub id: String,
    pub name: String,
    pub context: ContextSchema,
    pub events: Vec<EventObject>,
    pub externs: Vec<ExternObject>,
    pub root: RegionObject,
    pub submachines: Vec<MachineObject>,
    pub queue: QueueConfig,
}

#[derive(Debug)]
pub struct ContextSchema {
    pub fields: Vec<ContextField>,
}

#[derive(Debug)]
pub struct ContextField {
    pub id: String,
    pub name: String,
    pub ty: Type,
}

#[derive(Debug)]
pub struct EventObject {
    pub id: String,
    pub stable_id: String,
    pub name: String,
    pub payload: Vec<Param>,
}

#[derive(Debug)]
pub struct Param {
    pub name: String,
    pub ty: Type,
}

#[derive(Debug)]
pub struct ExternObject {
    pub name: String,
    pub params: Vec<Param>,
    pub return_type: Option<Type>,
    pub pure: bool,
}

/// Overflow policy as declared in a machine's `queue {}` block.
#[derive(Clone, Copy, Debug, PartialEq, Eq, Structural)]
pub enum IrOverflowPolicy {
    Assert,
    DropOldest,
    DropNewest,
    Error,
}

/// A machine's queue configuration. `explicit` is true when the machine
/// declares a `queue {}` block in its source.
#[derive(Debug)]
pub struct QueueConfig {
    pub capacity: u32,
    pub overflow_policy: IrOverflowPolicy,
    pub explicit: bool,
}

impl QueueConfig {
    /// Whether the configuration was written in the machine's source.
    pub fn is_explicit(&self) -> (r: bool)
        ensures
            r == self.explicit,
    {
        self.explicit
    }
}

/// A data type of a context field, payload field or cast.
#[derive(Debug)]
pub enum Type {
    Primitive { name: String },
    Enum { enum_id: String },
    Opaque { c_type: String },
    Array { element: Box<Type>, size: u32 },
}

/// A region: an ordered list of states and the id of its initial vertex.
#[derive(Debug)]
pub struct RegionObject {
    pub id: String,
    pub name: String,
    pub initial: String,
    pub states: Vec<StateNode>,
}

/// A vertex of the state tree.
#[derive(Debug)]
pub enum StateNode {
    Simple(SimpleState),
    Composite(CompositeState),
    Parallel(ParallelState),
    Initial(InitialPseudo),
    Final(FinalState),
    Choice(ChoiceState),
    Junction(ChoiceState),
    History(HistoryObject),
    Fork(PseudoVertex),
    Join(PseudoVertex),
    Submachine(SubmachineRef),
    EntryPoint(NamedPoint),
    ExitPoint(NamedPoint),
}

#[derive(Debug)]
pub struct SimpleState {
    pub id: String,
    pub stable_id: String,
    pub name: String,
    pub entry: Vec<Statement>,
    pub exit: Vec<Statement>,
    pub transitions: Vec<TransitionObject>,
    pub timers: Vec<TimerObject>,
    pub defers: Vec<DeferDecl>,
}

#[derive(Debug)]
pub struct CompositeState {
    pub id: String,
    pub stable_id: String,
    pub name: String,
    pub entry: Vec<Statement>,
    pub exit: Vec<Statement>,
    pub transitions: Vec<TransitionObject>,
    pub timers: Vec<TimerObject>,
    pub defers: Vec<DeferDecl>,
    pub regions: Vec<RegionObject>,
    pub history: Option<HistoryObject>,
}

#[derive(Debug)]
pub struct ParallelState {
    pub id: String,
    pub stable_id: String,
    pub name: String,
    pub entry: Vec<Statement>,
    pub exit: Vec<Statement>,
    pub transitions: Vec<TransitionObject>,
    pub timers: Vec<TimerObject>,
    pub defers: Vec<DeferDecl>,
    pub regions: Vec<RegionObject>,
}

#[derive(Debug)]
pub struct InitialPseudo {
    pub id: String,
    pub target: String,
}

#[derive(Debug)]
pub struct FinalState {
    pub id: String,
    pub name: String,
}

/// A choice or junction vertex with its guarded branches.
#[derive(Debug)]
pub struct ChoiceState {
    pub id: String,
    pub branches: Vec<ChoiceBranch>,
}

#[derive(Debug)]
pub struct ChoiceBranch {
    pub guard: GuardExpr,
    pub target: String,
    pub actions: Vec<Statement>,
}

#[derive(Clone, Copy, Debug, PartialEq, Eq, Structural)]
pub enum HistoryKind {
    Shallow,
    Deep,
}

#[derive(Debug)]
pub struct HistoryObject {
    pub id: String,
    pub kind: HistoryKind,
    pub default_target: String,
}

/// A fork or join vertex.
#[derive(Debug)]
pub struct PseudoVertex {
    pub id: String,
}

#[derive(Debug)]
pub struct NamedPoint {
    pub id: String,
    pub name: String,
}

/// A state that owns an instance of another machine template.
#[derive(Debug)]
pub struct SubmachineRef {
    pub id: String,
    pub name: String,
    pub submachine_id: String,
    pub transitions: Vec<TransitionObject>,
}

#[derive(Debug)]
pub struct DeferDecl {
    pub event_id: String,
}

#[derive(Clone, Copy, Debug, PartialEq, Eq, Structural)]
pub enum TimerKind {
    After,
    Every,
    EveryInternal,
}

#[derive(Debug)]
pub struct TimerObject {
    pub id: String,
    pub stable_id: String,
    pub kind: TimerKind,
    pub duration_ms: u32,
    pub target: Option<String>,
}

#[derive(Clone, Copy, Debug, PartialEq, Eq, Structural)]
pub enum TransitionKind {
    External,
    Local,
    Internal,
    /// A `done ->` completion transition.
    Completion,
}

#[derive(Clone, Copy, Debug, PartialEq, Eq, Structural)]
pub enum BranchHint {
    Likely,
    Rare,
}

#[derive(Debug)]
pub enum Trigger {
    Event { event_id: String },
    Completion,
    After { timer_id: String },
    Every { timer_id: String },
}

#[derive(Debug)]
pub struct TransitionObject {
    pub id: String,
    pub stable_id: String,
    pub source: String,
    pub target: String,
    pub trigger: Option<Trigger>,
    pub guard: Option<GuardExpr>,
    pub actions: Vec<Statement>,
    pub priority: u16,
    pub kind: TransitionKind,
    pub hint: Option<BranchHint>,
}

/// A reference to a context field or to a field of the event payload.
#[derive(Debug)]
pub enum FieldRef {
    Ctx { field: String },
    Payload { field: String },
}

/// A literal. A floating-point literal is held by its decimal rendering.
#[derive(Debug)]
pub enum Literal {
    Int(i64),
    Float(String),
    Bool(bool),
    Str(String),
    EnumVariant(EnumVariantLit),
}

/// A reference to a variant of a user enum.
#[derive(Debug)]
pub struct EnumVariantLit {
    pub enum_name: String,
    pub variant_name: String,
}

#[derive(Clone, Copy, Debug, PartialEq, Eq, Structural)]
pub enum CmpOp {
    Eq,
    NotEq,
    Lt,
    Gt,
    LtEq,
    GtEq,
}

#[derive(Clone, Copy, Debug, PartialEq, Eq, Structural)]
pub enum UnaryOp {
    Not,
    Neg,
    BitNot,
}

#[derive(Clone, Copy, Debug, PartialEq, Eq, Structural)]
pub enum BinaryOp {
    Add,
    Sub,
    Mul,
    Div,
    Mod,
    BitAnd,
    BitOr,
    BitXor,
    Shl,
    Shr,
    LogAnd,
    LogOr,
    Eq,
    NotEq,
    Lt,
    Gt,
    LtEq,
    GtEq,
}

#[derive(Debug)]
pub enum GuardOperand {
    Literal(Literal),
    FieldRef(FieldRef),
}

/// A transition or branch guard.
#[derive(Debug)]
pub enum GuardExpr {
    FieldCmp { lhs: FieldRef, op: CmpOp, rhs: GuardOperand },
    ExternCall { callee: String, args: Vec<Expr> },
    Not { operand: Box<GuardExpr> },
    And { left: Box<GuardExpr>, right: Box<GuardExpr> },
    Or { left: Box<GuardExpr>, right: Box<GuardExpr> },
    Else,
}

/// An action-language expression.
#[derive(Debug)]
pub enum Expr {
    FieldRef { field_ref: FieldRef },
    Literal(Literal),
    Call { callee: String, args: Vec<Expr> },
    Unary { op: UnaryOp, operand: Box<Expr> },
    Binary { op: BinaryOp, left: Box<Expr>, right: Box<Expr> },
    Cast { operand: Box<Expr>, target_type: Type },
}

/// An action-language statement.
#[derive(Debug)]
pub enum Statement {
    Assign { target: FieldRef, value: Expr },
    If { condition: Expr, then: Vec<Statement>, else_: Vec<Statement> },
    While { condition: Expr, body: Vec<Statement> },
    For { init: Box<Statement>, condition: Expr, update: Box<Statement>, body: Vec<Statement> },
    Call { callee: String, args: Vec<Expr> },
    Raise { event_id: String, args: Vec<Expr> },
    Send { event_id: String, args: Vec<Expr>, machine_id: String },
    Defer { event_id: String },
}

/// The IR id of a state-tree vertex.
pub open spec fn spec_node_id(s: StateNode) -> Seq<char> {
    match s {
        StateNode::Simple(x) => x.id@,
        StateNode::Composite(x) => x.id@,
        StateNode::Parallel(x) => x.id@,
        StateNode::Initial(x) => x.id@,
        StateNode::Final(x) => x.id@,
        StateNode::Choice(x) => x.id@,
        StateNode::Junction(x) => x.id@,
        StateNode::History(x) => x.id@,
        StateNode::Fork(x) => x.id@,
        StateNode::Join(x) => x.id@,
        StateNode::Submachine(x) => x.id@,
        StateNode::EntryPoint(x) => x.id@,
        StateNode::ExitPoint(x) => x.id@,
    }
}

/// The IR id of a state-tree vertex.
pub fn node_id(s: &StateNode) -> (r: &String)
    ensures
        r@ == spec_node_id(*s),
{
    match s {
        StateNode::Simple(x) => &x.id,
        StateNode::Composite(x) => &x.id,
        StateNode::Parallel(x) => &x.id,
        StateNode::Initial(x) => &x.id,
        StateNode::Final(x) => &x.id,
        StateNode::Choice(x) => &x.id,
        StateNode::Junction(x) => &x.id,
        StateNode::History(x) => &x.id,
        StateNode::Fork(x) => &x.id,
        StateNode::Join(x) => &x.id,
        StateNode::Submachine(x) => &x.id,
        StateNode::EntryPoint(x) => &x.id,
        StateNode::ExitPoint(x) => &x.id,
    }
}

} // verus!
