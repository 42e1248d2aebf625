use fsm_codegen_c::budget::compute_budget;
use fsm_codegen_c::config::CodegenConfig;
use fsm_codegen_c::ir::{
    ContextField, ContextSchema, EventObject, InitialPseudo, Ir, IrOverflowPolicy, MachineObject,
    QueueConfig, RegionObject, SimpleState, StateNode, Type,
};

fn simple(id: &str, name: &str) -> StateNode {
    StateNode::Simple(SimpleState {
        id: id.into(),
        stable_id: format!("Motor:state:{name}"),
        name: name.into(),
        entry: vec![],
        exit: vec![],
        transitions: vec![],
        timers: vec![],
        defers: vec![],
    })
}

fn motor_ir() -> Ir {
    Ir {
        machines: vec![MachineObject {
            id: "m".into(),
            name: "Motor".into(),
            context: ContextSchema {
                fields: vec![
                    ContextField { id: "f-speed".into(), name: "speed".into(), ty: Type::Primitive { name: "u16".into() } },
                    ContextField { id: "f-running".into(), name: "running".into(), ty: Type::Primitive { name: "bool".into() } },
                ],
            },
            events: vec![EventObject {
                id: "e-start".into(),
                stable_id: "Motor:event:START".into(),
                name: "START".into(),
                payload: vec![],
            }],
            externs: vec![],
            root: RegionObject {
                id: "r-root".into(),
                name: "__root".into(),
                initial: "ps-init".into(),
                states: vec![
                    StateNode::Initial(InitialPseudo { id: "ps-init".into(), target: "s-idle".into() }),
                    simple("s-idle", "Idle"),
                ],
            },
            submachines: vec![],
            queue: QueueConfig { capacity: 8, overflow_policy: IrOverflowPolicy::Assert, explicit: false },
        }],
    }
}

#[test]
fn budget_includes_context_fields() {
    let b = compute_budget(&motor_ir(), &CodegenConfig::default());
    assert_eq!(b.sizeof_context, 3);
}

#[test]
fn total_ram_exceeds_context() {
    let b = compute_budget(&motor_ir(), &CodegenConfig::default());
    assert!(b.total_ram_bytes > b.sizeof_context, "got: {b:?}");
}

#[test]
fn queue_bytes_scales_with_capacity() {
    let mut cfg = CodegenConfig::default();
    cfg.queue_capacity = 16;
    let b16 = compute_budget(&motor_ir(), &cfg);
    cfg.queue_capacity = 4;
    let b4 = compute_budget(&motor_ir(), &cfg);
    assert!(b16.queue_bytes > b4.queue_bytes);
}

#[test]
fn rom_estimate_nonzero_even_for_empty_machine() {
    let b = compute_budget(&motor_ir(), &CodegenConfig::default());
    assert!(b.estimated_rom_bytes > 0);
}

#[test]
fn budget_queue_is_capacity_times_event_size() {
    let mut cfg = CodegenConfig::default();
    cfg.queue_capacity = 16;
    let b16 = compute_budget(&motor_ir(), &cfg);
    cfg.queue_capacity = 8;
    let b8 = compute_budget(&motor_ir(), &cfg);
    assert_eq!(b16.queue_bytes, 2 * b8.queue_bytes);
    assert_eq!(b8.history_bytes, 0);
    assert_eq!(b8.timer_bytes, 0);
    assert!(b8.max_completion_depth >= 1);
}
