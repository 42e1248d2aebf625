//! C99 code generator for hierarchical finite state machines.
//!
//! The generator reads a machine description ([`ir`]) and emits, per
//! machine, a configuration header, an implementation header of the
//! user-supplied externs, the public header and the translation unit, plus
//! one shared HAL header. Every emitter states the exact text it produces.

pub mod budget;
pub mod config;
pub mod emit;
pub mod expr;
pub mod ir;
pub mod parent_table;
pub mod region_layout;
pub mod state_index;
pub mod stmt;
pub mod text;

pub use budget::{compute_budget, MemoryBudget};
pub use config::{CodegenConfig, DispatchStrategy, OverflowPolicy, TargetProfile};
pub use emit::{emit, EmitError, EmittedFile, EmittedFiles, FileRole};
pub use ir::{
    BinaryOp, ChoiceBranch, ChoiceState, CmpOp, CompositeState, ContextField, ContextSchema,
    DeferDecl, EnumVariantLit, EventObject, Expr, ExternObject, FieldRef, FinalState, GuardExpr,
    GuardOperand, HistoryKind, HistoryObject, InitialPseudo, Ir, IrOverflowPolicy, Literal,
    MachineObject, ParallelState, Param, PseudoVertex, QueueConfig, RegionObject, SimpleState,
    SimpleState as SimpleStateObj, StateNode, Statement, SubmachineRef, TimerKind, TimerObject,
    TransitionKind, TransitionObject, Trigger, Type, UnaryOp,
};
pub use parent_table::{build_parent_table, ParentTable};
pub use state_index::{build_state_index, StateIndex, ROOT_SENTINEL};
