use fsm_codegen_c::config::{CodegenConfig, DispatchStrategy, OverflowPolicy};
use fsm_codegen_c::emit::hal::emit_hal_header;
use fsm_codegen_c::emit::trace_hook::{c_string_literal, FIELD_SEP};
use fsm_codegen_c::emit::limits::ir_fits_limits;
use fsm_codegen_c::emit::{emit, is_power_of_two, EmitError, FileRole};
use fsm_codegen_c::ir::{
    DeferDecl, ContextField, ContextSchema, EventObject, InitialPseudo, Ir, IrOverflowPolicy, MachineObject,
    QueueConfig, RegionObject, SimpleState, StateNode, TimerKind, TimerObject, TransitionKind,
    TransitionObject, Trigger, Type,
};

fn transition(source: &str, target: &str, event: &str) -> TransitionObject {
    TransitionObject {
        id: format!("t-{source}-{target}"),
        stable_id: format!("Motor:t:{source}:{target}"),
        source: source.into(),
        target: target.into(),
        trigger: Some(Trigger::Event { event_id: event.into() }),
        guard: None,
        actions: vec![],
        priority: 0,
        kind: TransitionKind::External,
        hint: None,
    }
}

fn simple(id: &str, name: &str, transitions: Vec<TransitionObject>, timers: Vec<TimerObject>) -> StateNode {
    StateNode::Simple(SimpleState {
        id: id.into(),
        stable_id: format!("Motor:state:{name}"),
        name: name.into(),
        entry: vec![],
        exit: vec![],
        transitions,
        timers,
        defers: vec![],
    })
}

fn event(id: &str, name: &str) -> EventObject {
    EventObject { id: id.into(), stable_id: format!("Motor:event:{name}"), name: name.into(), payload: vec![] }
}

fn machine(name: &str, states: Vec<StateNode>, queue: QueueConfig) -> MachineObject {
    MachineObject {
        id: format!("m-{name}"),
        name: name.into(),
        context: ContextSchema {
            fields: vec![ContextField { id: "f-speed".into(), name: "speed".into(), ty: Type::Primitive { name: "u16".into() } }],
        },
        events: vec![event("e-start", "START"), event("e-stop", "STOP")],
        externs: vec![],
        root: RegionObject { id: "r-root".into(), name: "__root".into(), initial: "ps-init".into(), states },
        submachines: vec![],
        queue,
    }
}

fn implicit_queue() -> QueueConfig {
    QueueConfig { capacity: 8, overflow_policy: IrOverflowPolicy::Assert, explicit: false }
}

fn motor(queue: QueueConfig) -> MachineObject {
    let timer = TimerObject {
        id: "tm-1".into(),
        stable_id: "Motor:timer:1".into(),
        kind: TimerKind::After,
        duration_ms: 250,
        target: Some("s-idle".into()),
    };
    machine(
        "Motor",
        vec![
            StateNode::Initial(InitialPseudo { id: "ps-init".into(), target: "s-idle".into() }),
            simple("s-idle", "Idle", vec![transition("s-idle", "s-running", "e-start")], vec![]),
            simple("s-running", "Running", vec![transition("s-running", "s-idle", "e-stop")], vec![timer]),
        ],
        queue,
    )
}

#[test]
fn hal_header_declares_clock_and_assert() {
    let f = emit_hal_header(&CodegenConfig::default());
    assert_eq!(f.path, "fsm_hal.h");
    assert_eq!(f.role, FileRole::Hal);
    assert!(f.content.contains("uint32_t fsm_hal_clock_now_ms(void);"));
    assert!(f.content.contains("void fsm_hal_assert(bool cond, const char *msg);"));
}

#[test]
fn hal_header_defines_overflow_macros() {
    let f = emit_hal_header(&CodegenConfig::default());
    assert!(f.content.contains("FSM_QUEUE_ASSERT"));
    assert!(f.content.contains("FSM_QUEUE_DROP_NEWEST"));
}

#[test]
fn power_of_two_detected() {
    assert!(is_power_of_two(1));
    assert!(is_power_of_two(2));
    assert!(is_power_of_two(4));
    assert!(is_power_of_two(64));
    assert!(is_power_of_two(128));
    assert!(!is_power_of_two(0));
    assert!(!is_power_of_two(3));
    assert!(!is_power_of_two(10));
}

#[test]
fn c_string_literal_escapes_minimally() {
    assert_eq!(c_string_literal("s-Motor-Idle"), "\"s-Motor-Idle\"");
    assert_eq!(c_string_literal(""), "\"\"");
    assert_eq!(c_string_literal("a\"b\\c"), "\"a\\\"b\\\\c\"");
}

#[test]
fn c_string_literal_escapes_control_characters() {
    assert_eq!(c_string_literal("a\nb\tc\r"), "\"a\\nb\\tc\\r\"");
}

#[test]
fn field_sep_is_unit_separator() {
    assert_eq!(FIELD_SEP as u32, 0x1f);
}

#[test]
fn emit_writes_hal_then_four_files_per_machine() {
    let ir = Ir { machines: vec![motor(implicit_queue())] };
    let out = emit(&ir, &CodegenConfig::default()).expect("motor emits");
    let paths: Vec<&str> = out.files.iter().map(|f| f.path.as_str()).collect();
    assert_eq!(paths, vec!["fsm_hal.h", "Motor_conf.h", "Motor_impl.h", "Motor.h", "Motor.c"]);
    let roles: Vec<FileRole> = out.files.iter().map(|f| f.role).collect();
    assert_eq!(roles, vec![FileRole::Hal, FileRole::ConfHeader, FileRole::ImplHeader, FileRole::Header, FileRole::Source]);
    assert!(out.notes.is_empty());
    assert!(out.find("Motor.c").is_some());
    assert!(out.find("Pump.c").is_none());
}

#[test]
fn every_emitted_file_carries_the_spdx_line() {
    let ir = Ir { machines: vec![motor(implicit_queue())] };
    let cfg = CodegenConfig { license_spdx: "Apache-2.0".into(), ..CodegenConfig::default() };
    let out = emit(&ir, &cfg).expect("motor emits");
    for f in &out.files {
        assert!(f.content.starts_with("/* SPDX-License-Identifier: Apache-2.0 */\n"), "{}", f.path);
    }
    let c = &out.find("Motor.c").unwrap().content;
    assert!(c.contains("Motor.fsm (translation unit)"));
}

#[test]
fn public_header_declares_ids_struct_and_api() {
    let ir = Ir { machines: vec![motor(implicit_queue())] };
    let out = emit(&ir, &CodegenConfig::default()).unwrap();
    let h = &out.find("Motor.h").unwrap().content;
    assert!(h.contains("#ifndef MOTOR_H\n#define MOTOR_H\n"));
    assert!(h.contains("#include \"Motor_conf.h\""));
    assert!(h.contains("MOTOR_STATE__COUNT"));
    assert!(h.contains("MOTOR_EVENT_START"));
    assert!(h.contains("    Motor_StateId_t _active[MOTOR_MAX_PARALLEL_REGIONS];\n"));
    assert!(h.contains("uint32_t _timer_"));
    assert!(h.contains("_remaining_ms;\n"));
    assert!(h.contains("} Motor_t;\n"));
    assert!(h.contains("void  Motor_init          (Motor_t *m);"));
}

#[test]
fn source_initialises_into_the_initial_leaf() {
    let ir = Ir { machines: vec![motor(implicit_queue())] };
    let out = emit(&ir, &CodegenConfig::default()).unwrap();
    let c = &out.find("Motor.c").unwrap().content;
    assert!(c.contains("void Motor_init(Motor_t *m) {\n    memset(m, 0, sizeof(*m));\n    m->_active_count = 1;\n    m->_active[0] = MOTOR_STATE_ROOT;\n"));
    assert!(c.contains("    m->_active[0] = MOTOR_STATE_IDLE;\n"));
    assert!(c.contains("Motor_StateId_t Motor_current_state(const Motor_t *m) {\n    return m->_active[0];\n}\n"));
    assert!(c.contains("void Motor_dispatch(Motor_t *m, const Motor_Event_t *ev)"));
}

#[test]
fn conf_header_uses_the_effective_queue_capacity() {
    let q = QueueConfig { capacity: 64, overflow_policy: IrOverflowPolicy::DropNewest, explicit: true };
    let ir = Ir { machines: vec![motor(q)] };
    let out = emit(&ir, &CodegenConfig::default()).unwrap();
    let conf = &out.find("Motor_conf.h").unwrap().content;
    assert!(conf.contains("#define MOTOR_QUEUE_CAPACITY     64u\n"), "{conf}");
    assert!(conf.contains("#define MOTOR_QUEUE_OVERFLOW     FSM_QUEUE_DROP_NEWEST\n"), "{conf}");
    assert!(conf.contains("#include \"fsm_hal.h\""));
    assert!(conf.contains("#define MOTOR_CODEGEN_STRATEGY   FSM_STRATEGY_SWITCH\n"));
}

#[test]
fn table_strategy_override_reaches_the_conf_header() {
    let ir = Ir { machines: vec![motor(implicit_queue())] };
    let cfg = CodegenConfig {
        machine_strategy_overrides: vec![("Motor".to_string(), DispatchStrategy::Table)],
        ..CodegenConfig::default()
    };
    let out = emit(&ir, &cfg).unwrap();
    let conf = &out.find("Motor_conf.h").unwrap().content;
    assert!(conf.contains("#define MOTOR_CODEGEN_STRATEGY   FSM_STRATEGY_TABLE\n"));
}

#[test]
fn override_of_an_explicit_queue_block_is_disclosed_in_a_note() {
    let q = QueueConfig { capacity: 64, overflow_policy: IrOverflowPolicy::DropNewest, explicit: true };
    let ir = Ir { machines: vec![motor(q)] };
    let cfg = CodegenConfig { queue_capacity_override: Some(16), ..CodegenConfig::default() };
    let out = emit(&ir, &cfg).unwrap();
    assert_eq!(out.notes.len(), 1);
    assert!(out.notes[0].starts_with("machine `Motor`: an integrator override shadowed its in-source `queue {}` block"));
    assert!(out.notes[0].contains("capacity 64 (in-source) overridden to 16 by --queue-size / fsm.toml"));
    let conf = &out.find("Motor_conf.h").unwrap().content;
    assert!(conf.contains("#define MOTOR_QUEUE_CAPACITY     16u\n"));
}

#[test]
fn submachine_templates_are_emitted_first() {
    let mut m = motor(implicit_queue());
    m.submachines.push(machine(
        "Sub",
        vec![
            StateNode::Initial(InitialPseudo { id: "ps-init".into(), target: "s-a".into() }),
            simple("s-a", "A", vec![], vec![]),
        ],
        implicit_queue(),
    ));
    let out = emit(&Ir { machines: vec![m] }, &CodegenConfig::default()).unwrap();
    let paths: Vec<&str> = out.files.iter().map(|f| f.path.as_str()).collect();
    assert_eq!(
        paths,
        vec!["fsm_hal.h", "Sub_conf.h", "Sub_impl.h", "Sub.h", "Sub.c", "Motor_conf.h", "Motor_impl.h", "Motor.h", "Motor.c"]
    );
}

#[test]
fn fallback_capacity_must_be_a_power_of_two() {
    let ir = Ir { machines: vec![motor(implicit_queue())] };
    let cfg = CodegenConfig { queue_capacity: 3, ..CodegenConfig::default() };
    assert!(matches!(emit(&ir, &cfg), Err(EmitError::QueueCapacityNotPowerOfTwo(3))));
}

#[test]
fn effective_capacity_must_be_a_power_of_two() {
    let q = QueueConfig { capacity: 12, overflow_policy: IrOverflowPolicy::Assert, explicit: true };
    let ir = Ir { machines: vec![motor(q)] };
    assert!(matches!(emit(&ir, &CodegenConfig::default()), Err(EmitError::QueueCapacityNotPowerOfTwo(12))));
}

#[test]
fn empty_machine_is_refused() {
    let ir = Ir { machines: vec![machine("Hollow", vec![], implicit_queue())] };
    match emit(&ir, &CodegenConfig::default()) {
        Err(EmitError::EmptyMachine(name)) => assert_eq!(name, "Hollow"),
        other => panic!("unexpected: {other:?}"),
    }
}

#[test]
fn unknown_transition_target_is_refused() {
    let ir = Ir {
        machines: vec![machine(
            "Motor",
            vec![
                StateNode::Initial(InitialPseudo { id: "ps-init".into(), target: "s-idle".into() }),
                simple("s-idle", "Idle", vec![transition("s-idle", "s-ghost", "e-start")], vec![]),
            ],
            implicit_queue(),
        )],
    };
    match emit(&ir, &CodegenConfig::default()) {
        Err(EmitError::UnknownStateId(id)) => assert_eq!(id, "s-ghost"),
        other => panic!("unexpected: {other:?}"),
    }
}

#[test]
fn empty_transition_target_is_skipped_by_the_pre_flight() {
    let ir = Ir {
        machines: vec![machine(
            "Motor",
            vec![
                StateNode::Initial(InitialPseudo { id: "ps-init".into(), target: "s-idle".into() }),
                simple("s-idle", "Idle", vec![transition("s-idle", "", "e-start")], vec![]),
            ],
            implicit_queue(),
        )],
    };
    assert!(emit(&ir, &CodegenConfig::default()).is_ok());
}

#[test]
fn context_struct_declares_every_field_after_an_array() {
    let mut m = motor(implicit_queue());
    m.context.fields = vec![
        ContextField {
            id: "f-buf".into(),
            name: "buf".into(),
            ty: Type::Array { element: Box::new(Type::Primitive { name: "u8".into() }), size: 4 },
        },
        ContextField { id: "f-x".into(), name: "x".into(), ty: Type::Primitive { name: "u16".into() } },
    ];
    let out = emit(&Ir { machines: vec![m] }, &CodegenConfig::default()).unwrap();
    let h = &out.find("Motor.h").unwrap().content;
    assert!(h.contains("typedef struct {\n    uint8_t buf[4];\n    uint16_t x;\n} Motor_Context_t;\n"), "{h}");
}

#[test]
fn machine_struct_declares_trace_scratch_and_defer_buffer() {
    let mut m = motor(implicit_queue());
    if let StateNode::Simple(s) = &mut m.root.states[2] {
        s.defers.push(DeferDecl { event_id: "e-start".into() });
    }
    let out = emit(&Ir { machines: vec![m] }, &CodegenConfig::default()).unwrap();
    let h = &out.find("Motor.h").unwrap().content;
    assert!(h.contains("    Motor_Event_t _deferred[MOTOR_DEFER_CAPACITY];\n    uint8_t _deferred_count;\n"), "{h}");
    assert!(h.contains("    const char *_trace_tr;\n"));
    assert!(h.contains("#endif /* FSM_TRACE */\n} Motor_t;\n"));
    let c = &out.find("Motor.c").unwrap().content;
    assert!(c.contains("m->_deferred_count"));
    let plain = emit(&Ir { machines: vec![motor(implicit_queue())] }, &CodegenConfig::default()).unwrap();
    assert!(!plain.find("Motor.h").unwrap().content.contains("_deferred["));
}

#[test]
fn header_timer_fields_match_the_source_for_shared_state_names() {
    let timer = |id: &str| TimerObject {
        id: id.into(),
        stable_id: format!("Motor:timer:{id}"),
        kind: TimerKind::After,
        duration_ms: 10,
        target: None,
    };
    let m = machine(
        "Motor",
        vec![
            StateNode::Initial(InitialPseudo { id: "ps-init".into(), target: "s-a".into() }),
            simple("s-a", "Wait", vec![], vec![timer("t1")]),
            simple("s-b", "Wait", vec![], vec![timer("t2")]),
        ],
        implicit_queue(),
    );
    let out = emit(&Ir { machines: vec![m] }, &CodegenConfig::default()).unwrap();
    let h = &out.find("Motor.h").unwrap().content;
    let c = &out.find("Motor.c").unwrap().content;
    let mut fields = vec![];
    for line in h.lines() {
        if let Some(rest) = line.trim().strip_prefix("uint32_t _timer_") {
            fields.push(rest.trim_end_matches("_remaining_ms;").to_string());
        }
    }
    assert_eq!(fields.len(), 2, "{h}");
    assert_ne!(fields[0], fields[1]);
    for f in &fields {
        assert!(c.contains(&format!("_timer_{f}_remaining_ms")), "{f}");
    }
}

fn c_unescape(body: &str) -> String {
    let mut out = String::new();
    let mut it = body.chars();
    while let Some(c) = it.next() {
        if c == '\\' {
            match it.next() {
                Some('n') => out.push('\n'),
                Some('t') => out.push('\t'),
                Some('r') => out.push('\r'),
                Some(o) => out.push(o),
                None => out.push('\\'),
            }
        } else {
            out.push(c);
        }
    }
    out
}

#[test]
fn c_string_literal_reads_back_to_its_input() {
    for s in ["", "plain", "a\"b\\c", "tab\there\nnew\rret", "\\n literal", "\"\""] {
        let lit = c_string_literal(s);
        assert!(lit.starts_with('"') && lit.ends_with('"') && lit.len() >= 2);
        let body = &lit[1..lit.len() - 1];
        assert!(!body.contains('\n') && !body.contains('\t') && !body.contains('\r'));
        assert_eq!(c_unescape(body), s);
    }
}

#[test]
fn hal_header_defines_every_overflow_tag_with_distinct_values() {
    let cfg = CodegenConfig { license_spdx: "GPL-2.0".into(), ..CodegenConfig::default() };
    let f = emit_hal_header(&cfg);
    for p in [OverflowPolicy::Assert, OverflowPolicy::Drop] {
        assert!(f.content.contains(&format!("#define {}", p.macro_name())));
    }
    assert!(f.content.contains("#define FSM_QUEUE_ASSERT        0\n#define FSM_QUEUE_DROP_NEWEST   1\n"));
}

#[test]
fn limit_check_rejects_a_deferred_event_past_the_mask() {
    assert!(ir_fits_limits(&Ir { machines: vec![motor(implicit_queue())] }));
    let mut m = motor(implicit_queue());
    for k in 0..32 {
        m.events.push(event(&format!("e-x{k}"), &format!("X{k}")));
    }
    if let StateNode::Simple(s) = &mut m.root.states[2] {
        s.defers.push(DeferDecl { event_id: "e-x29".into() });
    }
    assert!(ir_fits_limits(&Ir { machines: vec![m] }));
    let mut far = motor(implicit_queue());
    for k in 0..32 {
        far.events.push(event(&format!("e-x{k}"), &format!("X{k}")));
    }
    if let StateNode::Simple(s) = &mut far.root.states[2] {
        s.defers.push(DeferDecl { event_id: "e-x30".into() });
    }
    assert!(!ir_fits_limits(&Ir { machines: vec![far] }));
}

#[test]
fn emitting_twice_gives_identical_output() {
    let build = || {
        let mut m = motor(QueueConfig { capacity: 16, overflow_policy: IrOverflowPolicy::DropNewest, explicit: true });
        m.submachines.push(machine(
            "Sub",
            vec![
                StateNode::Initial(InitialPseudo { id: "ps-init".into(), target: "s-a".into() }),
                simple("s-a", "A", vec![], vec![]),
            ],
            implicit_queue(),
        ));
        Ir { machines: vec![m] }
    };
    let mut cfg = CodegenConfig::default();
    cfg.queue_capacity = 4;
    let a = emit(&build(), &cfg).unwrap();
    let b = emit(&build(), &cfg).unwrap();
    assert_eq!(a.files.len(), b.files.len());
    for (x, y) in a.files.iter().zip(b.files.iter()) {
        assert_eq!(x.path, y.path);
        assert_eq!(x.role, y.role);
        assert_eq!(x.content, y.content);
    }
    assert_eq!(a.notes, b.notes);
    let bad = CodegenConfig { queue_capacity: 10, ..CodegenConfig::default() };
    assert!(matches!(emit(&build(), &bad), Err(EmitError::QueueCapacityNotPowerOfTwo(10))));
    assert!(matches!(emit(&build(), &bad), Err(EmitError::QueueCapacityNotPowerOfTwo(10))));
}
