//! Code-generation configuration.

use vstd::prelude::*;

use crate::ir::{IrOverflowPolicy, QueueConfig};
use crate::text::str_eq;

verus! {

/// Dispatch lowering strategy. `Auto` is resolved per machine against its
/// state count.
#[derive(Clone, Copy, Debug, PartialEq, Eq, Structural)]
pub enum DispatchStrategy {
    /// Nested switch with a leaf-to-root ancestor walk.
    Switch,
    /// Transition table, collect-then-execute.
    Table,
    /// `Switch` for at most 64 states, else `Table`.
    Auto,
}

/// Overflow policy of the generated ring buffer: the runtime has two
/// paths, assert or drop.
#[derive(Clone, Copy, Debug, PartialEq, Eq, Structural)]
pub enum OverflowPolicy {
    /// `FSM_QUEUE_ASSERT`: calls `fsm_hal_assert` on overflow.
    Assert,
    /// `FSM_QUEUE_DROP_NEWEST`: drops the incoming event.
    Drop,
}

/// Target build profile.
#[derive(Clone, Copy, Debug, PartialEq, Eq, Structural)]
pub enum TargetProfile {
    /// Freestanding C99 microcontroller target.
    Embedded,
    /// POSIX host target.
    Host,
}

/// Top-level code-generation knobs.
#[derive(Clone, Debug)]
pub struct CodegenConfig {
    pub strategy: DispatchStrategy,
    /// Fallback queue capacity, used only when the machine declares no
    /// `queue {}` block and no override is set. Must be a power of two.
    pub queue_capacity: u8,
    /// Fallback overflow policy, same precedence as `queue_capacity`.
    pub queue_overflow: OverflowPolicy,
    /// Integrator capacity override.
    pub queue_capacity_override: Option<u8>,
    /// Integrator overflow-policy override.
    pub queue_overflow_override: Option<OverflowPolicy>,
    /// SPDX license identifier written into every generated file.
    pub license_spdx: String,
    pub include_simulator_hooks: bool,
    pub include_inline_actions: bool,
    pub target_profile: TargetProfile,
    /// Per-machine dispatch-strategy overrides, keyed by machine name. A
    /// later entry for the same name replaces an earlier one.
    pub machine_strategy_overrides: Vec<(String, DispatchStrategy)>,
}

/// Disclosure that an integrator override shadowed an explicit in-source
/// `queue {}` block.
#[derive(Clone, Copy, Debug, PartialEq, Eq, Structural)]
pub struct QueueOverrideNote {
    pub in_source_capacity: u32,
    pub in_source_overflow: OverflowPolicy,
    pub effective_capacity: u32,
    pub effective_overflow: OverflowPolicy,
    pub capacity_overridden: bool,
    pub overflow_overridden: bool,
}

pub open spec fn spec_resolve(s: DispatchStrategy, state_count: nat) -> DispatchStrategy {
    match s {
        DispatchStrategy::Auto => if state_count <= 64 {
            DispatchStrategy::Switch
        } else {
            DispatchStrategy::Table
        },
        other => other,
    }
}

impl DispatchStrategy {
    /// Resolve `Auto` against a state count: `Switch` for at most 64
    /// states, else `Table`. Other strategies are kept.
    pub fn resolve(self, state_count: usize) -> (r: Self)
        ensures
            r == spec_resolve(self, state_count as nat),
    {
        match self {
            DispatchStrategy::Auto => {
                if state_count <= 64 {
                    DispatchStrategy::Switch
                } else {
                    DispatchStrategy::Table
                }
            },
            other => other,
        }
    }
}

pub open spec fn spec_from_ir(p: IrOverflowPolicy) -> OverflowPolicy {
    match p {
        IrOverflowPolicy::Assert | IrOverflowPolicy::Error => OverflowPolicy::Assert,
        IrOverflowPolicy::DropOldest | IrOverflowPolicy::DropNewest => OverflowPolicy::Drop,
    }
}

pub open spec fn spec_macro_name(p: OverflowPolicy) -> Seq<char> {
    match p {
        OverflowPolicy::Assert => "FSM_QUEUE_ASSERT"@,
        OverflowPolicy::Drop => "FSM_QUEUE_DROP_NEWEST"@,
    }
}

impl OverflowPolicy {
    /// Map the four declared policies onto the two runtime paths: both drop
    /// policies drop, `Error` asserts.
    pub fn from_ir(p: IrOverflowPolicy) -> (r: Self)
        ensures
            r == spec_from_ir(p),
    {
        match p {
            IrOverflowPolicy::Assert => OverflowPolicy::Assert,
            IrOverflowPolicy::DropOldest => OverflowPolicy::Drop,
            IrOverflowPolicy::DropNewest => OverflowPolicy::Drop,
            IrOverflowPolicy::Error => OverflowPolicy::Assert,
        }
    }

    /// The C macro that selects this policy.
    pub fn macro_name(self) -> (r: &'static str)
        ensures
            r@ == spec_macro_name(self),
    {
        match self {
            OverflowPolicy::Assert => "FSM_QUEUE_ASSERT",
            OverflowPolicy::Drop => "FSM_QUEUE_DROP_NEWEST",
        }
    }
}

/// The last override registered for `name`, if any.
pub open spec fn spec_override_for(ov: Seq<(String, DispatchStrategy)>, name: Seq<char>) -> Option<DispatchStrategy>
    decreases ov.len(),
{
    if ov.len() == 0 {
        None
    } else if ov.last().0@ == name {
        Some(ov.last().1)
    } else {
        spec_override_for(ov.drop_last(), name)
    }
}

/// The effective capacity and whether an override shadowed an explicit
/// in-source block.
pub open spec fn spec_capacity(cfg: CodegenConfig, q: QueueConfig) -> (u32, bool) {
    match cfg.queue_capacity_override {
        Some(o) => (o as u32, q.explicit),
        None => if q.explicit {
            (q.capacity, false)
        } else {
            (cfg.queue_capacity as u32, false)
        },
    }
}

pub open spec fn spec_overflow(cfg: CodegenConfig, q: QueueConfig) -> (OverflowPolicy, bool) {
    match cfg.queue_overflow_override {
        Some(o) => (o, q.explicit),
        None => if q.explicit {
            (spec_from_ir(q.overflow_policy), false)
        } else {
            (cfg.queue_overflow, false)
        },
    }
}

/// Queue resolution: an override wins, else an explicit in-source block,
/// else the fallback; each field independently. A note is returned iff an
/// override shadowed an explicit block.
pub open spec fn spec_resolve_queue(cfg: CodegenConfig, q: QueueConfig) -> (u32, OverflowPolicy, Option<QueueOverrideNote>) {
    let (cap, cap_o) = spec_capacity(cfg, q);
    let (ovf, ovf_o) = spec_overflow(cfg, q);
    (
        cap,
        ovf,
        if cap_o || ovf_o {
            Some(
                QueueOverrideNote {
                    in_source_capacity: q.capacity,
                    in_source_overflow: spec_from_ir(q.overflow_policy),
                    effective_capacity: cap,
                    effective_overflow: ovf,
                    capacity_overridden: cap_o,
                    overflow_overridden: ovf_o,
                },
            )
        } else {
            None
        },
    )
}

impl CodegenConfig {
    /// The defaults: `Auto` strategy, capacity 8, assert on overflow, no
    /// overrides, MIT license, embedded profile.
    pub open spec fn spec_is_default(&self) -> bool {
        &&& self.strategy == DispatchStrategy::Auto
        &&& self.queue_capacity == 8
        &&& self.queue_overflow == OverflowPolicy::Assert
        &&& self.queue_capacity_override is None
        &&& self.queue_overflow_override is None
        &&& self.license_spdx@ == "MIT"@
        &&& !self.include_simulator_hooks
        &&& !self.include_inline_actions
        &&& self.target_profile == TargetProfile::Embedded
        &&& self.machine_strategy_overrides@.len() == 0
    }

    /// The unresolved dispatch strategy for the named machine: its override
    /// when one is registered, else the global strategy.
    pub fn strategy_for(&self, machine_name: &str) -> (r: DispatchStrategy)
        ensures
            r == match spec_override_for(self.machine_strategy_overrides@, machine_name@) {
                Some(s) => s,
                None => self.strategy,
            },
    {
        let ov = &self.machine_strategy_overrides;
        let mut i = ov.len();
        assert(ov@.take(i as int) =~= ov@);
        while i > 0
            invariant
                i <= ov.len(),
                ov@ == self.machine_strategy_overrides@,
                spec_override_for(ov@, machine_name@) == spec_override_for(ov@.take(i as int), machine_name@),
            decreases i,
        {
            assert(ov@.take(i as int).drop_last() =~= ov@.take(i - 1));
            assert(ov@.take(i as int).last() == ov@[i - 1]);
            let entry = &ov[i - 1];
            if str_eq(entry.0.as_str(), machine_name) {
                assert(spec_override_for(ov@.take(i as int), machine_name@) == Some(entry.1));
                return entry.1;
            }
            i -= 1;
        }
        self.strategy
    }

    /// Resolve the effective queue capacity and overflow policy of one
    /// machine: an integrator override wins, else the machine's explicit
    /// `queue {}` block, else the fallback; each field on its own. The note
    /// is present iff an override shadowed an explicit block.
    pub fn resolve_queue(&self, machine_queue: &QueueConfig) -> (r: (u32, OverflowPolicy, Option<QueueOverrideNote>))
        ensures
            r == spec_resolve_queue(*self, *machine_queue),
    {
        let explicit = machine_queue.is_explicit();
        let (capacity, cap_overridden) = match self.queue_capacity_override {
            Some(o) => (o as u32, explicit),
            None => if explicit {
                (machine_queue.capacity, false)
            } else {
                (self.queue_capacity as u32, false)
            },
        };
        let ir_overflow = OverflowPolicy::from_ir(machine_queue.overflow_policy);
        let (overflow, ovf_overridden) = match self.queue_overflow_override {
            Some(o) => (o, explicit),
            None => if explicit {
                (ir_overflow, false)
            } else {
                (self.queue_overflow, false)
            },
        };
        let note = if cap_overridden || ovf_overridden {
            Some(
                QueueOverrideNote {
                    in_source_capacity: machine_queue.capacity,
                    in_source_overflow: ir_overflow,
                    effective_capacity: capacity,
                    effective_overflow: overflow,
                    capacity_overridden: cap_overridden,
                    overflow_overridden: ovf_overridden,
                },
            )
        } else {
            None
        };
        (capacity, overflow, note)
    }
}

impl Default for CodegenConfig {
    fn default() -> (r: Self)
        ensures
            r.spec_is_default(),
    {
        CodegenConfig {
            strategy: DispatchStrategy::Auto,
            queue_capacity: 8,
            queue_overflow: OverflowPolicy::Assert,
            queue_capacity_override: None,
            queue_overflow_override: None,
            license_spdx: "MIT".to_owned(),
            include_simulator_hooks: false,
            include_inline_actions: false,
            target_profile: TargetProfile::Embedded,
            machine_strategy_overrides: Vec::new(),
        }
    }
}


/// Law: queue settings resolve field by field with the precedence
/// override, then an explicit in-source block, then the fallback; a
/// capacity override leaves the overflow policy where the block or the
/// fallback put it, and the other way round.
pub proof fn law_queue_precedence(cfg: CodegenConfig, q: QueueConfig)
    ensures
        spec_resolve_queue(cfg, q).0 == match cfg.queue_capacity_override {
            Some(o) => o as u32,
            None => if q.explicit { q.capacity } else { cfg.queue_capacity as u32 },
        },
        spec_resolve_queue(cfg, q).1 == match cfg.queue_overflow_override {
            Some(o) => o,
            None => if q.explicit { spec_from_ir(q.overflow_policy) } else { cfg.queue_overflow },
        },
{
}

/// Law: an override never replaces an explicit in-source queue block
/// silently: a disclosure note comes back exactly when the machine has an
/// explicit block and some override is set, and it records which fields
/// were shadowed and the values on both sides.
pub proof fn law_override_never_silent(cfg: CodegenConfig, q: QueueConfig)
    ensures
        spec_resolve_queue(cfg, q).2 is Some <==> (q.explicit && (cfg.queue_capacity_override is Some
            || cfg.queue_overflow_override is Some)),
        spec_resolve_queue(cfg, q).2 matches Some(n) ==> {
            &&& n.capacity_overridden == cfg.queue_capacity_override is Some
            &&& n.overflow_overridden == cfg.queue_overflow_override is Some
            &&& n.in_source_capacity == q.capacity
            &&& n.effective_capacity == spec_resolve_queue(cfg, q).0
            &&& n.effective_overflow == spec_resolve_queue(cfg, q).1
        },
{
}

} // verus!
