use starforge::deployment_optimizer::{
    BatchOptimizer, GasCostOptimizer, OptimizationLevel, ReliabilityOptimizer, SpeedOptimizer,
};

#[test]
fn test_gas_cost_estimation() {
    let wasm_bytes = vec![0u8; 1024 * 50];
    let cost = GasCostOptimizer::estimate_gas_cost(&wasm_bytes, "testnet");
    assert!(cost > 0);
}

#[test]
fn test_time_estimation() {
    let wasm_bytes = vec![0u8; 1024 * 50];
    let time = SpeedOptimizer::estimate_deployment_time(&wasm_bytes, "testnet");
    assert!(time > 0);
}

#[test]
fn test_recommend_concurrency_bounded_by_contract_count() {
    let wasm_bytes = vec![0u8; 1024 * 50];
    let workers = BatchOptimizer::recommend_concurrency(2, &wasm_bytes, 8);
    assert_eq!(workers, 2, "must never exceed contract count");
}

#[test]
fn test_recommend_concurrency_at_least_one() {
    let wasm_bytes = vec![0u8; 1024 * 50];
    let workers = BatchOptimizer::recommend_concurrency(1, &wasm_bytes, 0);
    assert_eq!(workers, 1);
}

#[test]
fn test_recommend_concurrency_caps_for_large_wasm() {
    let wasm_bytes = vec![0u8; 600 * 1024];
    let workers = BatchOptimizer::recommend_concurrency(8, &wasm_bytes, 8);
    assert_eq!(workers, 2);
}

#[test]
fn estimates_are_exact_for_round_sizes() {
    let wasm = vec![0u8; 1024 * 50];
    assert_eq!(GasCostOptimizer::estimate_gas_cost(&wasm, "testnet"), 5_000);
    assert_eq!(GasCostOptimizer::estimate_gas_cost(&wasm, "mainnet"), 50_000);
    assert_eq!(GasCostOptimizer::estimate_gas_cost(&wasm, "futurenet"), 25_000);
    assert_eq!(SpeedOptimizer::estimate_deployment_time(&wasm, "testnet"), 2_000);
    assert_eq!(SpeedOptimizer::estimate_deployment_time(&wasm, "mainnet"), 5_000);
    assert_eq!(SpeedOptimizer::estimate_deployment_time(&wasm, "other"), 3_000);
    assert_eq!(GasCostOptimizer::estimate_gas_cost(&[], "testnet"), 0);
}

#[test]
fn concurrency_follows_batch_size_and_host() {
    let small = vec![0u8; 10];
    assert_eq!(BatchOptimizer::recommend_concurrency(20, &small, 16), 5);
    assert_eq!(BatchOptimizer::recommend_concurrency(20, &small, 3), 3);
    assert_eq!(BatchOptimizer::recommend_concurrency(0, &small, 3), 1);
}

#[test]
fn gas_suggestions_for_large_and_panicky_wasm() {
    let mut wasm = vec![0u8; 150 * 1024];
    wasm[10..15].copy_from_slice(b"panic");
    let s = GasCostOptimizer::analyze_gas_optimization(&wasm);
    assert_eq!(s.len(), 2);
    assert_eq!(s[0].id, "GAS-001");
    assert_eq!(s[0].description, "WASM is 150.0 KB, consider optimizing to reduce gas costs");
    assert_eq!(s[0].estimated_gas_savings, 50_000);
    assert_eq!(s[1].id, "GAS-002");
    assert!(GasCostOptimizer::analyze_gas_optimization(&[1, 2, 3]).is_empty());
}

#[test]
fn speed_suggestion_for_large_wasm() {
    let wasm = vec![0u8; 51_300];
    let s = SpeedOptimizer::analyze_speed_optimization(&wasm);
    assert_eq!(s.len(), 1);
    assert_eq!(s[0].description, "WASM size 50.1 KB affects upload time");
    assert_eq!(s[0].estimated_time_savings_ms, 9);
    assert!(SpeedOptimizer::analyze_speed_optimization(&[0u8; 100]).is_empty());
}

#[test]
fn reliability_suggestions_are_fixed() {
    let s = ReliabilityOptimizer::analyze_reliability_optimization();
    let ids: Vec<&str> = s.iter().map(|x| x.id.as_str()).collect();
    assert_eq!(ids, vec!["REL-001", "REL-002"]);
    assert_eq!(OptimizationLevel::Aggressive.label(), "aggressive");
}
