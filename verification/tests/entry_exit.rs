use fsm_codegen_c::emit::entry_exit::{effective_lca, entry_path, exit_path, lca_inclusive};
use fsm_codegen_c::ir::{
    CompositeState, ContextSchema, InitialPseudo, IrOverflowPolicy, MachineObject, QueueConfig,
    RegionObject, SimpleState, StateNode, TransitionKind, TransitionObject, Trigger,
};
use fsm_codegen_c::parent_table::{build_parent_table, ParentTable};
use fsm_codegen_c::state_index::{build_state_index, StateIndex, ROOT_SENTINEL};

fn t(source: &str, target: &str, kind: TransitionKind) -> TransitionObject {
    TransitionObject {
        id: format!("t-{source}-{target}"),
        stable_id: "T".into(),
        source: source.into(),
        target: target.into(),
        trigger: Some(Trigger::Event { event_id: "e".into() }),
        guard: None,
        actions: vec![],
        priority: 100,
        kind,
        hint: None,
    }
}

fn simple(id: &str, name: &str) -> StateNode {
    StateNode::Simple(SimpleState {
        id: id.into(),
        stable_id: format!("M:{name}"),
        name: name.into(),
        entry: vec![],
        exit: vec![],
        transitions: vec![],
        timers: vec![],
        defers: vec![],
    })
}

fn composite(id: &str, name: &str, region: RegionObject) -> StateNode {
    StateNode::Composite(CompositeState {
        id: id.into(),
        stable_id: format!("M:{name}"),
        name: name.into(),
        entry: vec![],
        exit: vec![],
        transitions: vec![],
        timers: vec![],
        defers: vec![],
        regions: vec![region],
        history: None,
    })
}

fn init(id: &str, target: &str) -> StateNode {
    StateNode::Initial(InitialPseudo { id: id.into(), target: target.into() })
}

fn machine(states: Vec<StateNode>, initial: &str) -> MachineObject {
    MachineObject {
        id: "m".into(),
        name: "M".into(),
        context: ContextSchema { fields: vec![] },
        events: vec![],
        externs: vec![],
        root: RegionObject { id: "r-root".into(), name: "__root".into(), initial: initial.into(), states },
        submachines: vec![],
        queue: QueueConfig { capacity: 8, overflow_policy: IrOverflowPolicy::Assert, explicit: false },
    }
}

fn nested_index() -> (StateIndex, ParentTable) {
    let op_region = RegionObject {
        id: "r-op".into(),
        name: "Op".into(),
        initial: "ps-op-init".into(),
        states: vec![init("ps-op-init", "s-running"), simple("s-running", "Running")],
    };
    let m = machine(
        vec![init("ps-init", "s-op"), composite("s-op", "Op", op_region), simple("s-faulted", "Faulted")],
        "ps-init",
    );
    let index = build_state_index(&m).expect("build_state_index");
    let parents = build_parent_table(&index);
    (index, parents)
}

fn box_two_inner_index() -> (StateIndex, ParentTable) {
    let box_region = RegionObject {
        id: "r-box".into(),
        name: "Box".into(),
        initial: "ps-box-init".into(),
        states: vec![init("ps-box-init", "s-inner1"), simple("s-inner1", "Inner1"), simple("s-inner2", "Inner2")],
    };
    let m = machine(vec![init("ps-init", "s-box"), composite("s-box", "Box", box_region)], "ps-init");
    let index = build_state_index(&m).expect("build_state_index");
    let parents = build_parent_table(&index);
    (index, parents)
}

#[test]
fn external_self_transition_lca_is_parent() {
    let (index, parents) = nested_index();
    let tt = t("s-running", "s-running", TransitionKind::External);
    let lca = effective_lca(&tt, &index, &parents);
    let parent = index.lookup("s-op").unwrap();
    assert_eq!(lca, parent);
    assert_eq!(exit_path(&tt, &index, &parents), vec![index.lookup("s-running").unwrap()]);
    assert_eq!(entry_path(&tt, &index, &parents), vec![index.lookup("s-running").unwrap()]);
}

#[test]
fn local_self_transition_has_empty_exit_set() {
    let (index, parents) = nested_index();
    let tt = t("s-running", "s-running", TransitionKind::Local);
    assert_eq!(exit_path(&tt, &index, &parents).len(), 0);
    assert_eq!(entry_path(&tt, &index, &parents).len(), 0);
}

#[test]
fn internal_transition_has_no_entry_or_exit() {
    let (index, parents) = nested_index();
    let tt = t("s-running", "s-running", TransitionKind::Internal);
    assert!(exit_path(&tt, &index, &parents).is_empty());
    assert!(entry_path(&tt, &index, &parents).is_empty());
}

fn oracle_lca(a: u8, b: u8, parents: &ParentTable) -> u8 {
    let mut chain = Vec::with_capacity(8);
    let mut cur = a;
    loop {
        chain.push(cur);
        if cur == ROOT_SENTINEL {
            break;
        }
        cur = parents.parents[cur as usize];
        if cur == ROOT_SENTINEL {
            chain.push(ROOT_SENTINEL);
            break;
        }
    }
    let mut cur = b;
    loop {
        if chain.contains(&cur) {
            return cur;
        }
        if cur == ROOT_SENTINEL {
            return ROOT_SENTINEL;
        }
        cur = parents.parents[cur as usize];
    }
}

#[test]
fn shared_u8_lca_matches_handrolled_oracle() {
    let (index, parents) = nested_index();
    let running = index.lookup("s-running").unwrap();
    let op = index.lookup("s-op").unwrap();
    let faulted = index.lookup("s-faulted").unwrap();
    for (a, b) in [
        (running, faulted),
        (faulted, running),
        (running, op),
        (running, running),
        (op, ROOT_SENTINEL),
    ] {
        assert_eq!(lca_inclusive(a, b, &parents), oracle_lca(a, b, &parents), "u8 lca mismatch for ({a},{b})");
    }
    assert_eq!(lca_inclusive(running, faulted, &parents), ROOT_SENTINEL);
    assert_eq!(lca_inclusive(running, op, &parents), op);
}

#[test]
fn nested_transition_exits_through_composite() {
    let (index, parents) = nested_index();
    let tt = t("s-running", "s-faulted", TransitionKind::External);
    let exits = exit_path(&tt, &index, &parents);
    let running = index.lookup("s-running").unwrap();
    let op = index.lookup("s-op").unwrap();
    let faulted = index.lookup("s-faulted").unwrap();
    assert_eq!(exits, vec![running, op]);
    assert_eq!(entry_path(&tt, &index, &parents), vec![faulted]);
}

#[test]
fn sibling_local_exits_source_leaf_enters_target_leaf_not_composite() {
    let (index, parents) = box_two_inner_index();
    let tt = t("s-inner1", "s-inner2", TransitionKind::Local);
    let box_idx = index.lookup("s-box").unwrap();
    let inner1 = index.lookup("s-inner1").unwrap();
    let inner2 = index.lookup("s-inner2").unwrap();
    assert_eq!(effective_lca(&tt, &index, &parents), box_idx);
    assert_eq!(exit_path(&tt, &index, &parents), vec![inner1]);
    assert_eq!(entry_path(&tt, &index, &parents), vec![inner2]);
    assert!(
        !exit_path(&tt, &index, &parents).contains(&box_idx)
            && !entry_path(&tt, &index, &parents).contains(&box_idx)
    );
}

#[test]
fn within_subtree_local_does_not_exit_source() {
    let (index, parents) = box_two_inner_index();
    let tt = t("s-box", "s-inner2", TransitionKind::Local);
    let box_idx = index.lookup("s-box").unwrap();
    let inner2 = index.lookup("s-inner2").unwrap();
    assert_eq!(effective_lca(&tt, &index, &parents), box_idx);
    assert_eq!(exit_path(&tt, &index, &parents), Vec::<u8>::new());
    assert_eq!(entry_path(&tt, &index, &parents), vec![inner2]);
}

#[test]
fn internal_non_self_still_has_no_entry_or_exit() {
    let (index, parents) = box_two_inner_index();
    let tt = t("s-inner1", "s-inner2", TransitionKind::Internal);
    assert!(exit_path(&tt, &index, &parents).is_empty());
    assert!(entry_path(&tt, &index, &parents).is_empty());
}

#[test]
fn lca_is_symmetric_on_concrete_pairs() {
    let (index, parents) = box_two_inner_index();
    let n = index.count() as u8;
    for a in 0..n {
        assert_eq!(lca_inclusive(a, a, &parents), a);
        for b in 0..n {
            assert_eq!(lca_inclusive(a, b, &parents), lca_inclusive(b, a, &parents));
        }
    }
}

#[test]
fn external_transition_to_outer_state_exits_then_enters() {
    let (index, parents) = nested_index();
    let tt = t("s-faulted", "s-running", TransitionKind::External);
    let running = index.lookup("s-running").unwrap();
    let op = index.lookup("s-op").unwrap();
    let faulted = index.lookup("s-faulted").unwrap();
    assert_eq!(effective_lca(&tt, &index, &parents), ROOT_SENTINEL);
    assert_eq!(exit_path(&tt, &index, &parents), vec![faulted]);
    assert_eq!(entry_path(&tt, &index, &parents), vec![op, running]);
}
