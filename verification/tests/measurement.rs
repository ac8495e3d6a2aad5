use starforge::gas_profiler::builder::ModuleBuilder;
use starforge::gas_profiler::fees::{NetworkFeeConfig, ResourceUsage, TxLimits};
use starforge::gas_profiler::measure::{
    contract_events_bytes, from_usage, parse_measurement, LimitUtilization, Utilization,
};
use starforge::gas_profiler::measured::{measured_rules, top_resource};
use starforge::gas_profiler::profile_bytes;
use starforge::gas_profiler::suggest::FindingSeverity;
use starforge::simulation_resources::JsonValue;

fn cfg() -> NetworkFeeConfig {
    NetworkFeeConfig::default()
}

#[test]
fn parses_usage_document() {
    let cfg = NetworkFeeConfig::default();
    let m = parse_measurement(
        "transfer",
        "inline",
        r#"{"instructions": 2000000, "read_entries": 3, "write_entries": 2,
            "read_bytes": 1500, "write_bytes": 400, "contract_events_bytes": 200,
            "transaction_size_bytes": 600}"#,
        &cfg,
    )
    .unwrap();
    assert_eq!(m.function, "transfer");
    assert_eq!(m.usage.instructions, 2_000_000);
    assert_eq!(m.model_fee.cpu, 5_000);
    assert!(m.reported_min_resource_fee.is_none());
    assert_eq!(m.effective_fee(), m.model_fee.total);
}

#[test]
fn parses_simulation_envelope() {
    let cfg = NetworkFeeConfig::default();
    let raw = r#"{"jsonrpc":"2.0","id":1,"result":{
        "minResourceFee":"58000",
        "cost":{"cpuInsns":"1500000","memBytes":"900000"},
        "latestLedger": 100
    }}"#;
    let m = parse_measurement("mint", "sim.json", raw, &cfg).unwrap();
    assert_eq!(m.reported_min_resource_fee, Some(58_000));
    assert_eq!(m.usage.instructions, 1_500_000);
    assert_eq!(m.usage.memory_bytes, Some(900_000));
    assert_eq!(m.effective_fee(), 58_000);
    assert!(m.warnings.iter().any(|w| w.contains("footprint")));
}

#[test]
fn rejects_garbage() {
    let cfg = NetworkFeeConfig::default();
    assert!(parse_measurement("f", "x", "not json", &cfg).is_err());
    assert!(parse_measurement("f", "x", "{}", &cfg).is_err());
}

#[test]
fn undecodable_events_are_ignored() {
    let events = vec![JsonValue::String("!!!".into()), JsonValue::Null];
    assert_eq!(contract_events_bytes(&events), 0);
}

#[test]
fn measurement_errors_name_the_source() {
    let cfg = NetworkFeeConfig::default();
    assert_eq!(
        parse_measurement("f", "x.json", "not json", &cfg).unwrap_err(),
        "x.json is not valid JSON"
    );
    assert_eq!(
        parse_measurement("f", "x.json", r#"{"instructions": -1}"#, &cfg).unwrap_err(),
        "x.json is not a valid resource usage document"
    );
    assert_eq!(
        parse_measurement("f", "x.json", r#"{"instructions": "12"}"#, &cfg).unwrap_err(),
        "x.json is not a valid resource usage document"
    );
    let e = parse_measurement("f", "x.json", "{}", &cfg).unwrap_err();
    assert!(e.starts_with("x.json: unsupported simulation response"));
    let e = parse_measurement("f", "x.json", "[1]", &cfg).unwrap_err();
    assert!(e.starts_with("x.json: simulation response is not a JSON object"));
}

#[test]
fn usage_document_defaults_and_memory() {
    let cfg = NetworkFeeConfig::default();
    let m = parse_measurement("f", "u", r#"{"instructions": 10, "memory_bytes": null}"#, &cfg).unwrap();
    assert_eq!(m.usage.memory_bytes, None);
    assert_eq!(m.usage.write_bytes, 0);
    assert!(m.warnings.is_empty());
    assert!(!m.requires_restore);
    let m = parse_measurement("f", "u", r#"{"instructions": 10, "memory_bytes": 77}"#, &cfg).unwrap();
    assert_eq!(m.usage.memory_bytes, Some(77));
    assert_eq!(m.utilization.memory, Some(Utilization { used: 77, limit: 40 * 1024 * 1024 }));
}

#[test]
fn simulation_without_footprint_estimates_the_size() {
    let cfg = NetworkFeeConfig::default();
    let raw = r#"{"minResourceFee":"100","cost":{"cpuInsns":"5"},"events":["!!!"]}"#;
    let m = parse_measurement("g", "s", raw, &cfg).unwrap();
    assert_eq!(m.usage.transaction_size_bytes, 300);
    assert_eq!(m.usage.contract_events_bytes, 0);
    assert_eq!(m.usage.read_entries, 0);
    assert!(m.warnings.iter().any(|w| w.contains("counted as 0")));
    assert!(m.warnings.last().unwrap().contains("transaction size is estimated"));
}

#[test]
fn limit_use_and_top_resource() {
    let usage = ResourceUsage {
        instructions: 1_000_000,
        read_entries: 10,
        write_entries: 10,
        ..Default::default()
    };
    let u = LimitUtilization::compute(&usage, &cfg().limits);
    assert_eq!(u.read_entries, Utilization { used: 20, limit: 40 });
    assert_eq!(u.write_entries, Utilization { used: 10, limit: 25 });
    assert_eq!(top_resource(&u).0, "read_entries");
}

#[test]
fn measured_rules_use_measurements() {
    let wasm = ModuleBuilder::new()
        .func(Some("mint"), vec![])
        .custom("contractenvmetav0", vec![0; 4])
        .build();
    let r = profile_bytes(&wasm, "c", "c.wasm", &cfg()).unwrap();
    let usage = ResourceUsage {
        instructions: 95_000_000,
        write_entries: 3,
        write_bytes: 4_000,
        ..Default::default()
    };
    let m = from_usage("mint", "test", usage, &cfg());
    let r = r.with_measurements(vec![m], &cfg());
    let limit = r.suggestions.iter().find(|s| s.id == "GAS-140").unwrap();
    assert_eq!(limit.severity, FindingSeverity::Critical);
    assert!(limit.title.contains("instructions"));
    assert_eq!(limit.title, "`mint` uses 95% of the per-transaction instructions limit");
    assert_eq!(r.measurements.len(), 1);
}

#[test]
fn measured_rules_cover_fees_restore_and_accuracy() {
    let usage = ResourceUsage { write_entries: 2, write_bytes: 2_000, ..Default::default() };
    let mut m = from_usage("put", "p.json", usage, &cfg());
    m.requires_restore = true;
    m.restore_fee_stroops = Some(1234);
    m.reported_min_resource_fee = Some(1);
    let out = measured_rules(&[m], "rates");
    let ids: Vec<&str> = out.iter().map(|s| s.id.as_str()).collect();
    assert_eq!(ids, vec!["GAS-141", "GAS-145", "GAS-146"]);
    assert!(out[0].title.starts_with("Ledger writes are "));
    assert!(out[0].title.ends_with("% of `put`'s resource fee"));
    assert_eq!(out[0].severity, FindingSeverity::Medium);
    assert_eq!(out[1].evidence, "simulation requires a restore transaction (1234 stroops)");
    assert!(out[2].evidence.ends_with("stroops (rates)"));
    assert!(measured_rules(&[], "rates").is_empty());
}

#[test]
fn utilization_counts_write_entries_as_reads() {
    let usage = ResourceUsage { read_entries: 10, write_entries: 10, ..Default::default() };
    let u = LimitUtilization::compute(&usage, &TxLimits::default());
    // 20 of 40 read entries is 50%, 10 of 25 write entries is 40%.
    assert_eq!(u.read_entries.used * 100, 50 * u.read_entries.limit);
    assert_eq!(u.write_entries.used * 100, 40 * u.write_entries.limit);
    assert_eq!(u.ranked()[0].0, "read_entries");
}

#[test]
fn ranking_keeps_report_order_on_ties() {
    let limits = TxLimits::default();
    let usage = ResourceUsage { memory_bytes: Some(1), ..Default::default() };
    let u = LimitUtilization::compute(&usage, &limits);
    let names: Vec<&str> = u.ranked().iter().map(|p| p.0).collect();
    assert_eq!(
        names,
        vec!["memory", "instructions", "read_entries", "write_entries", "read_bytes", "write_bytes", "events"]
    );
}
