use starforge::gas_profiler::fees::{
    compute_resource_fee, estimate_upload_fee, per_increment, upload_savings, FeeSchedule,
    NetworkFeeConfig, ResourceUsage, TxLimits,
};

#[test]
fn per_increment_rounds_up() {
    assert_eq!(per_increment(0, 25, 10_000), 0);
    assert_eq!(per_increment(1, 25, 10_000), 1);
    assert_eq!(per_increment(10_000, 25, 10_000), 25);
    assert_eq!(per_increment(10_001, 25, 10_000), 26);
}

#[test]
fn fee_matches_host_formula() {
    let fees = FeeSchedule::default();
    let usage = ResourceUsage {
        instructions: 1_000_000,
        memory_bytes: Some(1_000),
        read_entries: 2,
        write_entries: 1,
        read_bytes: 2_048,
        write_bytes: 512,
        contract_events_bytes: 100,
        transaction_size_bytes: 700,
    };
    let f = compute_resource_fee(&usage, &fees);
    assert_eq!(f.cpu, 2_500);
    assert_eq!(f.read_entries, 18_750);
    assert_eq!(f.write_entries, 10_000);
    assert_eq!(f.read_bytes, 3_572);
    assert_eq!(f.write_bytes, 5_900);
    assert_eq!(f.historical, 15_855);
    assert_eq!(f.bandwidth, 1_111);
    assert_eq!(f.events, 977);
    assert_eq!(f.total, f.non_refundable_total + f.events);
    assert_eq!(f.dominant().unwrap().0, "read_entries");
}

#[test]
fn upload_fee_grows_with_size() {
    let fees = FeeSchedule::default();
    let small = estimate_upload_fee(10_000, &fees).total;
    let big = estimate_upload_fee(60_000, &fees).total;
    assert!(big > small);
    assert!(upload_savings(60_000, 50_000, &fees) > 0);
    assert_eq!(upload_savings(60_000, 0, &fees), 0);
}

#[test]
fn defaults_match_network_values() {
    let cfg = NetworkFeeConfig::default();
    assert_eq!(cfg.fees.fee_per_read_entry, 6_250);
    assert_eq!(cfg.limits.max_instructions, 100_000_000);
    let limits = TxLimits::default();
    assert_eq!(limits.max_instructions, 100_000_000);
}

#[test]
fn zero_usage_costs_only_the_base_result_size() {
    let fees = FeeSchedule::default();
    let f = compute_resource_fee(&ResourceUsage::default(), &fees);
    assert_eq!(f.cpu, 0);
    assert_eq!(f.events, 0);
    // historical data still pays for the 300-byte result
    assert!(f.historical > 0);
    assert_eq!(f.total, f.non_refundable_total);
}

#[test]
fn components_are_in_report_order() {
    let fees = FeeSchedule::default();
    let f = compute_resource_fee(&ResourceUsage::default(), &fees);
    let c = f.components();
    let labels: Vec<&str> = c.iter().map(|(l, _)| *l).collect();
    assert_eq!(
        labels,
        vec!["cpu", "read_entries", "write_entries", "read_bytes", "write_bytes", "historical", "bandwidth", "events"]
    );
}
