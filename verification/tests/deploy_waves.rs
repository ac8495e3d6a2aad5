use starforge::deploy_orchestrator::{
    compute_execution_levels, mark_rolled_back, plan_step, simulate_deploy_address, DeployAction,
    DeployStep, DeployStepStatus, DeploymentState, PlanError,
};

fn step(id: &str, depends_on: &[&str]) -> DeployStep {
    DeployStep {
        contract_id: id.to_string(),
        wasm: format!("{id}.wasm"),
        wasm_hash: format!("hash_{id}"),
        status: DeployStepStatus::Pending,
        deployed_address: None,
        error: None,
        order: 0,
        depends_on: depends_on.iter().map(|d| d.to_string()).collect(),
    }
}

fn state(steps: Vec<DeployStep>) -> DeploymentState {
    DeploymentState {
        id: "test".into(),
        manifest_name: "test".into(),
        network: "testnet".into(),
        created_at: String::new(),
        updated_at: String::new(),
        status: "planned".into(),
        steps,
    }
}

#[test]
fn execution_levels_independent_contracts_share_a_wave() {
    let s = state(vec![step("a", &[]), step("b", &[]), step("c", &[])]);
    let waves = compute_execution_levels(&s).unwrap();
    assert_eq!(waves.len(), 1);
    assert_eq!(waves[0], vec![0, 1, 2]);
}

#[test]
fn execution_levels_respect_dependency_chain() {
    let s = state(vec![step("a", &[]), step("b", &["a"]), step("c", &["b"])]);
    let waves = compute_execution_levels(&s).unwrap();
    assert_eq!(waves.len(), 3);
    assert_eq!(waves[0], vec![0]);
    assert_eq!(waves[1], vec![1]);
    assert_eq!(waves[2], vec![2]);
}

#[test]
fn execution_levels_handles_diamond_and_siblings() {
    let s = state(vec![
        step("a", &[]),
        step("b", &["a"]),
        step("c", &["a"]),
        step("d", &["b", "c"]),
    ]);
    let waves = compute_execution_levels(&s).unwrap();
    assert_eq!(waves.len(), 3);
    assert_eq!(waves[0], vec![0]);
    assert_eq!(waves[1], vec![1, 2]);
    assert_eq!(waves[2], vec![3]);
}

#[test]
fn execution_levels_orders_tasks_sorted_within_level() {
    let s = state(vec![step("z_dep", &["a"]), step("a", &[]), step("b", &[])]);
    let waves = compute_execution_levels(&s).unwrap();
    assert_eq!(waves[0], vec![1, 2]);
    assert_eq!(waves[1], vec![0]);
}

#[test]
fn execution_levels_detects_cycles() {
    let s = state(vec![step("a", &["b"]), step("b", &["a"])]);
    assert!(compute_execution_levels(&s).is_err());
}

#[test]
fn execution_levels_rejects_unknown_dependency() {
    let s = state(vec![step("a", &[]), step("b", &["ghost"])]);
    assert!(compute_execution_levels(&s).is_err());
}

#[test]
fn simulated_addresses_match_executors() {
    let hash = "0123456789abcdef";
    assert_eq!(
        simulate_deploy_address(hash, true),
        format!("C_SIMULATED_{}", &hash[..8])
    );
    assert_eq!(
        simulate_deploy_address(hash, false),
        format!("C_LIVE_{}", &hash[..8])
    );
}

#[test]
fn short_hashes_are_used_whole() {
    assert_eq!(simulate_deploy_address("abc", true), "C_SIMULATED_abc");
    assert_eq!(simulate_deploy_address("", false), "C_LIVE_");
}

#[test]
fn empty_plan_has_no_waves() {
    let waves = compute_execution_levels(&state(vec![])).unwrap();
    assert!(waves.is_empty());
}

#[test]
fn self_dependency_is_a_cycle() {
    let s = state(vec![step("a", &["a"])]);
    match compute_execution_levels(&s) {
        Err(PlanError::Cycle) => {}
        other => panic!("expected a cycle, got {:?}", other),
    }
    assert_eq!(
        PlanError::Cycle.message(),
        "Circular dependency detected in deployment plan"
    );
}

#[test]
fn unknown_dependency_names_the_first_offender() {
    let s = state(vec![step("a", &["x"]), step("b", &["y"])]);
    match compute_execution_levels(&s) {
        Err(e @ PlanError::UnknownDependency { .. }) => {
            assert_eq!(e.message(), "Contract 'a' depends on unknown contract 'x'");
        }
        other => panic!("expected an unknown dependency, got {:?}", other),
    }
}

#[test]
fn later_duplicate_id_is_the_dependency_target() {
    // "a" appears twice; the dependency resolves to the later step (index 2),
    // so "b" waits for it.
    let s = state(vec![step("a", &[]), step("b", &["a"]), step("a", &["c"]), step("c", &[])]);
    let waves = compute_execution_levels(&s).unwrap();
    assert_eq!(waves, vec![vec![0, 3], vec![2], vec![1]]);
}

fn run_to_completion(s: &mut DeploymentState, dry_run: bool) -> usize {
    let waves = compute_execution_levels(s).unwrap();
    let mut saves = 0;
    while plan_step(s, dry_run, &waves) == DeployAction::Save {
        saves += 1;
        assert!(saves < 100, "the executor must finish");
    }
    saves
}

#[test]
fn stepping_deploys_every_contract_in_wave_order_and_completes() {
    let mut s = state(vec![step("b", &["a"]), step("a", &[])]);
    let waves = compute_execution_levels(&s).unwrap();
    assert_eq!(plan_step(&mut s, true, &waves), DeployAction::Save);
    assert_eq!(s.status, "simulated");
    assert_eq!(plan_step(&mut s, true, &waves), DeployAction::Save);
    // "a" (index 1) is in the first wave
    assert_eq!(s.steps[1].status, DeployStepStatus::Deployed);
    assert_eq!(s.steps[1].deployed_address.as_deref(), Some("C_SIMULATED_hash_a"));
    assert_eq!(s.steps[0].status, DeployStepStatus::Pending);
    let saves = run_to_completion(&mut s, true);
    assert_eq!(saves, 2);
    assert_eq!(s.status, "simulated-complete");
    assert!(s.steps.iter().all(|st| st.status == DeployStepStatus::Deployed));
    assert_eq!(plan_step(&mut s, true, &waves), DeployAction::Finished);
}

#[test]
fn stepping_skips_deployed_steps_and_completes_a_finished_plan_without_work() {
    let mut s = state(vec![step("a", &[]), step("b", &[])]);
    s.steps[0].status = DeployStepStatus::Deployed;
    s.steps[0].deployed_address = Some("C_EXISTING".into());
    assert_eq!(run_to_completion(&mut s, false), 3);
    assert_eq!(s.steps[0].deployed_address.as_deref(), Some("C_EXISTING"));
    assert_eq!(s.steps[1].deployed_address.as_deref(), Some("C_LIVE_hash_b"));
    assert_eq!(s.status, "complete");

    let mut done = state(vec![step("a", &[])]);
    done.steps[0].status = DeployStepStatus::Deployed;
    assert_eq!(run_to_completion(&mut done, false), 1);
    assert_eq!(done.status, "complete");
}

#[test]
fn rollback_marks_deployed_steps_last_first() {
    let mut s = state(vec![step("a", &[]), step("b", &[]), step("c", &[])]);
    s.steps[0].status = DeployStepStatus::Deployed;
    s.steps[0].deployed_address = Some("A".into());
    s.steps[2].status = DeployStepStatus::Deployed;
    s.steps[2].deployed_address = Some("C".into());
    let ids = mark_rolled_back(&mut s);
    assert_eq!(ids, vec!["c".to_string(), "a".to_string()]);
    assert_eq!(s.status, "rolled-back");
    assert_eq!(s.steps[0].status, DeployStepStatus::RolledBack);
    assert!(s.steps[0].deployed_address.is_none());
    assert_eq!(s.steps[1].status, DeployStepStatus::Pending);
    assert_eq!(s.steps[2].status, DeployStepStatus::RolledBack);
}
