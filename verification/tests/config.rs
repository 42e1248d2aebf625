use fsm_codegen_c::config::{CodegenConfig, DispatchStrategy, OverflowPolicy};
use fsm_codegen_c::ir::{IrOverflowPolicy, QueueConfig};

fn explicit_queue(cap: u32, ovf: IrOverflowPolicy) -> QueueConfig {
    QueueConfig { capacity: cap, overflow_policy: ovf, explicit: true }
}

fn default_queue() -> QueueConfig {
    QueueConfig { capacity: 8, overflow_policy: IrOverflowPolicy::Assert, explicit: false }
}

#[test]
fn default_config_uses_mit() {
    assert_eq!(CodegenConfig::default().license_spdx, "MIT");
}

#[test]
fn default_strategy_is_auto() {
    assert_eq!(CodegenConfig::default().strategy, DispatchStrategy::Auto);
}

#[test]
fn auto_resolves_to_switch_for_small_machines() {
    assert_eq!(DispatchStrategy::Auto.resolve(3), DispatchStrategy::Switch);
}

#[test]
fn auto_resolves_to_table_for_large_machines() {
    assert_eq!(DispatchStrategy::Auto.resolve(120), DispatchStrategy::Table);
}

#[test]
fn auto_boundary_is_sixty_four_states() {
    assert_eq!(DispatchStrategy::Auto.resolve(64), DispatchStrategy::Switch);
    assert_eq!(DispatchStrategy::Auto.resolve(65), DispatchStrategy::Table);
    assert_eq!(DispatchStrategy::Table.resolve(3), DispatchStrategy::Table);
    assert_eq!(DispatchStrategy::Switch.resolve(500), DispatchStrategy::Switch);
}

#[test]
fn overflow_policy_maps_drop_oldest_to_drop() {
    assert_eq!(OverflowPolicy::from_ir(IrOverflowPolicy::DropOldest), OverflowPolicy::Drop);
}

#[test]
fn overflow_policy_maps_error_to_assert() {
    assert_eq!(OverflowPolicy::from_ir(IrOverflowPolicy::Error), OverflowPolicy::Assert);
}

#[test]
fn overflow_macro_names() {
    assert_eq!(OverflowPolicy::Assert.macro_name(), "FSM_QUEUE_ASSERT");
    assert_eq!(OverflowPolicy::Drop.macro_name(), "FSM_QUEUE_DROP_NEWEST");
    assert_eq!(OverflowPolicy::from_ir(IrOverflowPolicy::DropNewest), OverflowPolicy::Drop);
    assert_eq!(OverflowPolicy::from_ir(IrOverflowPolicy::Assert), OverflowPolicy::Assert);
}

#[test]
fn no_override_honors_in_source_queue() {
    let cfg = CodegenConfig::default();
    let (cap, ovf, note) = cfg.resolve_queue(&explicit_queue(64, IrOverflowPolicy::DropNewest));
    assert_eq!(cap, 64, "in-source capacity must win when no override");
    assert_eq!(ovf, OverflowPolicy::Drop);
    assert!(note.is_none(), "no override means no shadow note");
}

#[test]
fn no_override_no_in_source_block_keeps_codegen_default() {
    let cfg = CodegenConfig::default();
    let (cap, ovf, note) = cfg.resolve_queue(&default_queue());
    assert_eq!(cap, 8, "no block + no override gives the codegen default 8");
    assert_eq!(ovf, OverflowPolicy::Assert);
    assert!(note.is_none());
}

#[test]
fn integrator_override_shadows_explicit_block_with_a_note() {
    let cfg = CodegenConfig { queue_capacity_override: Some(16), ..CodegenConfig::default() };
    let (cap, _ovf, note) = cfg.resolve_queue(&explicit_queue(64, IrOverflowPolicy::DropNewest));
    assert_eq!(cap, 16, "the integrator override wins over the in-source block");
    let note = note.expect("shadowing an explicit block must produce a note");
    assert!(note.capacity_overridden, "capacity was the shadowed field");
    assert!(!note.overflow_overridden, "no overflow override was set");
    assert_eq!(note.in_source_capacity, 64);
    assert_eq!(note.effective_capacity, 16);
}

fn note_overflow(cfg: &CodegenConfig) -> bool {
    cfg.queue_overflow_override.is_some()
}

#[test]
fn capacity_override_alone_does_not_reset_in_source_overflow() {
    let cfg = CodegenConfig { queue_capacity_override: Some(8), ..CodegenConfig::default() };
    let (cap, ovf, note) = cfg.resolve_queue(&explicit_queue(64, IrOverflowPolicy::DropNewest));
    assert_eq!(cap, 8);
    assert_eq!(ovf, OverflowPolicy::Drop, "in-source overflow must survive a capacity-only override");
    assert!(note.unwrap().capacity_overridden && !note_overflow(&cfg));
}

#[test]
fn override_against_no_in_source_block_is_not_a_shadow() {
    let cfg = CodegenConfig { queue_capacity_override: Some(32), ..CodegenConfig::default() };
    let (cap, _ovf, note) = cfg.resolve_queue(&default_queue());
    assert_eq!(cap, 32);
    assert!(note.is_none(), "no explicit in-source block: an override shadows nothing");
}

#[test]
fn overflow_override_shadows_only_overflow() {
    let cfg = CodegenConfig { queue_overflow_override: Some(OverflowPolicy::Assert), ..CodegenConfig::default() };
    let (cap, ovf, note) = cfg.resolve_queue(&explicit_queue(32, IrOverflowPolicy::DropOldest));
    assert_eq!(cap, 32);
    assert_eq!(ovf, OverflowPolicy::Assert);
    let n = note.expect("note");
    assert!(!n.capacity_overridden);
    assert!(n.overflow_overridden);
    assert_eq!(n.in_source_overflow, OverflowPolicy::Drop);
    assert_eq!(n.effective_overflow, OverflowPolicy::Assert);
}

#[test]
fn strategy_for_takes_the_last_override() {
    let cfg = CodegenConfig {
        machine_strategy_overrides: vec![
            ("Motor".to_string(), DispatchStrategy::Table),
            ("Pump".to_string(), DispatchStrategy::Switch),
            ("Motor".to_string(), DispatchStrategy::Switch),
        ],
        ..CodegenConfig::default()
    };
    assert_eq!(cfg.strategy_for("Motor"), DispatchStrategy::Switch);
    assert_eq!(cfg.strategy_for("Pump"), DispatchStrategy::Switch);
    assert_eq!(cfg.strategy_for("Fan"), DispatchStrategy::Auto);
}
