use fsm_codegen_c::ir::{
    CompositeState, ContextSchema, FinalState, InitialPseudo, IrOverflowPolicy, MachineObject,
    ParallelState, QueueConfig, RegionObject, SimpleState, StateNode,
};
use fsm_codegen_c::parent_table::build_parent_table;
use fsm_codegen_c::region_layout::build_region_layout;
use fsm_codegen_c::state_index::{build_state_index, c_ident, StateRecordKind, ROOT_SENTINEL};
use fsm_codegen_c::emit::EmitError;

fn simple(id: &str, name: &str) -> StateNode {
    StateNode::Simple(SimpleState {
        id: id.into(),
        stable_id: format!("M:state:{name}"),
        name: name.into(),
        entry: vec![],
        exit: vec![],
        transitions: vec![],
        timers: vec![],
        defers: vec![],
    })
}

fn init(id: &str, target: &str) -> StateNode {
    StateNode::Initial(InitialPseudo { id: id.into(), target: target.into() })
}

fn region(id: &str, initial: &str, states: Vec<StateNode>) -> RegionObject {
    RegionObject { id: id.into(), name: id.into(), initial: initial.into(), states }
}

fn machine(root: RegionObject) -> MachineObject {
    MachineObject {
        id: "m".into(),
        name: "M".into(),
        context: ContextSchema { fields: vec![] },
        events: vec![],
        externs: vec![],
        root,
        submachines: vec![],
        queue: QueueConfig { capacity: 8, overflow_policy: IrOverflowPolicy::Assert, explicit: false },
    }
}

fn flat_machine() -> MachineObject {
    machine(region("r-root", "ps-init", vec![init("ps-init", "s-idle"), simple("s-idle", "Idle")]))
}

fn composite(id: &str, name: &str, r: RegionObject) -> StateNode {
    StateNode::Composite(CompositeState {
        id: id.into(),
        stable_id: format!("M:state:{name}"),
        name: name.into(),
        entry: vec![],
        exit: vec![],
        transitions: vec![],
        timers: vec![],
        defers: vec![],
        regions: vec![r],
        history: None,
    })
}

fn parallel_two_regions() -> MachineObject {
    let ra = region(
        "r-a",
        "ps-a-init",
        vec![init("ps-a-init", "s-a"), simple("s-a", "A"), StateNode::Final(FinalState { id: "s-a-final".into(), name: "AFinal".into() })],
    );
    let rb = region(
        "r-b",
        "ps-b-init",
        vec![init("ps-b-init", "s-b"), simple("s-b", "B"), StateNode::Final(FinalState { id: "s-b-final".into(), name: "BFinal".into() })],
    );
    machine(region(
        "r-root",
        "ps-root-init",
        vec![
            init("ps-root-init", "s-par"),
            StateNode::Parallel(ParallelState {
                id: "s-par".into(),
                stable_id: "M:Par".into(),
                name: "Par".into(),
                entry: vec![],
                exit: vec![],
                transitions: vec![],
                timers: vec![],
                defers: vec![],
                regions: vec![ra, rb],
            }),
        ],
    ))
}

#[test]
fn root_sentinel_at_index_zero() {
    let idx = build_state_index(&flat_machine()).expect("flat machine indexes");
    assert_eq!(idx.records[0].kind, StateRecordKind::Root);
    assert_eq!(idx.records[0].parent, ROOT_SENTINEL);
    let init_idx = idx.lookup("ps-init").unwrap();
    assert_eq!(idx.records[0].initial_child, Some(init_idx));
}

#[test]
fn simple_state_is_active_at_rest() {
    let idx = build_state_index(&flat_machine()).expect("flat machine indexes");
    let s_idx = idx.lookup("s-idle").unwrap();
    assert_eq!(idx.get(s_idx).kind, StateRecordKind::Simple);
    assert!(idx.get(s_idx).kind.is_active_at_rest());
}

#[test]
fn initial_pseudo_is_not_active_at_rest() {
    let idx = build_state_index(&flat_machine()).expect("flat machine indexes");
    let p_idx = idx.lookup("ps-init").unwrap();
    assert!(!idx.get(p_idx).kind.is_active_at_rest());
}

#[test]
fn c_ident_handles_nested_dotted_names() {
    assert_eq!(c_ident("Running.Normal"), "RUNNING_NORMAL");
    assert_eq!(c_ident("Hb-Active"), "HB_ACTIVE");
    assert_eq!(c_ident("__weird_"), "WEIRD");
}

#[test]
fn c_ident_collapses_consecutive_separators() {
    assert_eq!(c_ident("A--B..C"), "A_B_C");
}

#[test]
fn c_ident_keeps_digits_and_uppercases_letters() {
    assert_eq!(c_ident("motor2"), "MOTOR2");
    assert_eq!(c_ident(""), "STATE");
    assert_eq!(c_ident("__"), "STATE");
    assert_eq!(c_ident("a b"), "A_B");
}

#[test]
fn duplicate_state_names_are_uniquified() {
    let m = machine(region("r-root", "s-idle-1", vec![simple("s-idle-1", "Idle"), {
        let mut s = simple("s-idle-2", "Idle");
        if let StateNode::Simple(x) = &mut s {
            x.stable_id = "M:state:Idle2".into();
        }
        s
    }]));
    let idx = build_state_index(&m).expect("collision machine indexes");
    let a = idx.lookup("s-idle-1").unwrap();
    let b = idx.lookup("s-idle-2").unwrap();
    assert_ne!(idx.get(a).c_name, idx.get(b).c_name);
}

#[test]
fn composite_initial_child_and_parent_thread_through_visitor() {
    let inner = region("r-outer", "ps-outer-init", vec![init("ps-outer-init", "s-inner"), simple("s-inner", "Inner")]);
    let m = machine(region("r-root", "ps-root-init", vec![init("ps-root-init", "s-outer"), composite("s-outer", "Outer", inner)]));
    let idx = build_state_index(&m).expect("composite fixture indexes");
    assert_eq!(idx.count(), 5);
    let root = idx.get(ROOT_SENTINEL);
    assert_eq!(root.parent, ROOT_SENTINEL);
    let outer_idx = idx.lookup("s-outer").expect("outer indexed");
    let inner_idx = idx.lookup("s-inner").expect("inner indexed");
    assert_eq!(idx.get(outer_idx).parent, ROOT_SENTINEL);
    assert_eq!(idx.get(inner_idx).parent, outer_idx);
    let outer_init_idx = idx.lookup("ps-outer-init").unwrap();
    assert_eq!(idx.get(outer_idx).initial_child, Some(outer_init_idx));
    assert_eq!(idx.records[0].kind, StateRecordKind::Root);
    assert_eq!(idx.records[1].kind, StateRecordKind::Initial);
    assert_eq!(idx.records[2].kind, StateRecordKind::Composite);
    assert_eq!(idx.records[3].kind, StateRecordKind::Initial);
    assert_eq!(idx.records[4].kind, StateRecordKind::Simple);
}

#[test]
fn too_many_states_is_refused() {
    let mut states = vec![];
    for i in 0..300 {
        states.push(simple(&format!("s-{i}"), &format!("S{i}")));
    }
    let m = machine(region("r-root", "s-0", states));
    assert!(matches!(build_state_index(&m), Err(EmitError::TooManyStates)));
}

#[test]
fn lookup_of_unknown_id_is_none() {
    let idx = build_state_index(&flat_machine()).unwrap();
    assert_eq!(idx.lookup("nope"), None);
    assert_eq!(idx.must_lookup("nope"), ROOT_SENTINEL);
}

#[test]
fn parent_chain_walks_to_root() {
    let running = region("r-op", "ps-op-init", vec![init("ps-op-init", "s-running"), simple("s-running", "Running")]);
    let m = machine(region("r-root", "ps-root-init", vec![init("ps-root-init", "s-op"), composite("s-op", "Operational", running)]));
    let idx = build_state_index(&m).expect("build_state_index");
    let pt = build_parent_table(&idx);
    let running_idx = idx.lookup("s-running").unwrap();
    let op_idx = idx.lookup("s-op").unwrap();
    assert_eq!(pt.parents[running_idx as usize], op_idx);
    assert_eq!(pt.parents[op_idx as usize], ROOT_SENTINEL);
    assert_eq!(pt.parent(running_idx), Some(op_idx));
    assert!(pt.is_root(ROOT_SENTINEL));
}

#[test]
fn flat_machine_max_regions_is_one() {
    let m = flat_machine();
    let idx = build_state_index(&m).unwrap();
    let layout = build_region_layout(&m, &idx);
    assert_eq!(layout.max_parallel_regions, 1);
    let idle = idx.lookup("s-idle").unwrap();
    assert_eq!(layout.slot(idle), 0);
}

#[test]
fn parallel_two_regions_gives_two_slots() {
    let m = parallel_two_regions();
    let idx = build_state_index(&m).unwrap();
    let layout = build_region_layout(&m, &idx);
    assert_eq!(layout.max_parallel_regions, 2);
    let a = idx.lookup("s-a").unwrap();
    let b = idx.lookup("s-b").unwrap();
    let par = idx.lookup("s-par").unwrap();
    assert_eq!(layout.slot(par), 0);
    assert_eq!(layout.slot(a), 0);
    assert_eq!(layout.slot(b), 1);
    assert_eq!(layout.slot(250), 0);
}

#[test]
fn c_ident_output_is_a_clean_identifier() {
    for input in ["", "_", "a", "-x-", "Mixed.Case--name__", "9lives", "  spaced  out  ", "UPPER_ok"] {
        let out = c_ident(input);
        assert!(!out.is_empty(), "{input:?}");
        assert!(out.chars().all(|c| c.is_ascii_uppercase() || c.is_ascii_digit() || c == '_'), "{out}");
        assert!(!out.contains("__"), "{out}");
        assert!(!out.starts_with('_') && !out.ends_with('_'), "{out}");
    }
    assert_eq!(c_ident("Mixed.Case--name__"), "MIXED_CASE_NAME");
}

#[test]
fn dedup_skips_names_already_taken() {
    let m = machine(region(
        "r-root",
        "s-1",
        vec![simple("s-1", "Idle"), simple("s-2", "Idle"), simple("s-3", "Idle_1")],
    ));
    let idx = build_state_index(&m).unwrap();
    let names: Vec<String> = idx.records.iter().map(|r| r.c_name.clone()).collect();
    for i in 0..names.len() {
        for j in (i + 1)..names.len() {
            assert_ne!(names[i], names[j], "{names:?}");
        }
    }
    assert_eq!(idx.get(idx.lookup("s-1").unwrap()).c_name, "IDLE");
    assert_eq!(idx.get(idx.lookup("s-2").unwrap()).c_name, "IDLE_1");
    assert_eq!(idx.get(idx.lookup("s-3").unwrap()).c_name, "IDLE_1_1");
}

fn parallel(id: &str, regions: Vec<RegionObject>) -> StateNode {
    StateNode::Parallel(ParallelState {
        id: id.into(),
        stable_id: format!("M:{id}"),
        name: id.into(),
        entry: vec![],
        exit: vec![],
        transitions: vec![],
        timers: vec![],
        defers: vec![],
        regions,
    })
}

#[test]
fn sibling_parallels_stay_inside_the_active_array() {
    let two = |p: &str| {
        parallel(
            &format!("s-{p}"),
            vec![
                region(&format!("r-{p}a"), &format!("s-{p}a"), vec![simple(&format!("s-{p}a"), &format!("{p}A"))]),
                region(&format!("r-{p}b"), &format!("s-{p}b"), vec![simple(&format!("s-{p}b"), &format!("{p}B"))]),
            ],
        )
    };
    let top = region("r-top", "s-p", vec![two("p"), two("q")]);
    let m = machine(region("r-root", "s-top", vec![composite("s-top", "Top", top)]));
    let idx = build_state_index(&m).unwrap();
    let layout = build_region_layout(&m, &idx);
    assert_eq!(layout.max_parallel_regions, 2);
    for s in &layout.slot_of {
        assert!(*s < layout.max_parallel_regions, "{:?}", layout.slot_of);
    }
    assert_eq!(layout.slot(idx.lookup("s-qa").unwrap()), 0);
    assert_eq!(layout.slot(idx.lookup("s-qb").unwrap()), 1);
}

#[test]
fn every_record_hangs_under_an_earlier_scope() {
    let inner = region("r-in", "s-x", vec![simple("s-x", "X")]);
    let m = machine(region(
        "r-root",
        "s-top",
        vec![
            composite("s-top", "Top", inner),
            parallel(
                "s-par",
                vec![
                    region("r-pa", "s-a", vec![simple("s-a", "A")]),
                    region("r-pb", "s-b", vec![simple("s-b", "B")]),
                ],
            ),
        ],
    ));
    let idx = build_state_index(&m).unwrap();
    assert_eq!(idx.records[0].kind, StateRecordKind::Root);
    assert_eq!(idx.records[0].parent, ROOT_SENTINEL);
    for i in 1..idx.count() {
        let r = &idx.records[i];
        assert_ne!(r.kind, StateRecordKind::Root);
        assert!((r.parent as usize) < i);
        let pk = idx.records[r.parent as usize].kind;
        assert!(matches!(pk, StateRecordKind::Root | StateRecordKind::Composite | StateRecordKind::Parallel));
        assert_eq!(idx.lookup(&r.ir_id), Some(i as u8));
    }
    assert_eq!(idx.records[idx.lookup("s-a").unwrap() as usize].parent, idx.lookup("s-par").unwrap());
}

#[test]
fn nested_parallel_regions_are_numbered_depth_first() {
    let inner = parallel(
        "s-in",
        vec![
            region("r-c", "s-c", vec![simple("s-c", "C")]),
            region("r-d", "s-d", vec![simple("s-d", "D")]),
        ],
    );
    let outer = parallel(
        "s-out",
        vec![
            region("r-a", "s-in", vec![inner]),
            region("r-b", "s-b", vec![simple("s-b", "B")]),
        ],
    );
    let m = machine(region("r-root", "s-out", vec![outer]));
    let idx = build_state_index(&m).unwrap();
    let layout = build_region_layout(&m, &idx);
    assert_eq!(layout.max_parallel_regions, 3);
    assert_eq!(layout.slot(idx.lookup("s-in").unwrap()), 0);
    assert_eq!(layout.slot(idx.lookup("s-c").unwrap()), 0);
    assert_eq!(layout.slot(idx.lookup("s-d").unwrap()), 1);
    assert_eq!(layout.slot(idx.lookup("s-b").unwrap()), 2);
}
