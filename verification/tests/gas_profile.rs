use starforge::gas_profiler::builder::op;
use starforge::gas_profiler::builder::ModuleBuilder;
use starforge::gas_profiler::fees::{upload_savings, NetworkFeeConfig};
use starforge::gas_profiler::host_fns::HostCategory;
use starforge::gas_profiler::report::{bar, render_suggestions_text, Format};
use starforge::gas_profiler::suggest::{
    at_least, parse_severity, score, sort_suggestions, Basis, FindingSeverity, Suggestion,
};
use starforge::gas_profiler::{profile_bytes, StaticProfile, LOOP_WEIGHT_MULTIPLIER};

fn cfg() -> NetworkFeeConfig {
    NetworkFeeConfig::default()
}

/// `helper` writes storage; `batch` calls `helper` inside a loop;
/// `get` reads storage once.
fn fixture() -> Vec<u8> {
    ModuleBuilder::new()
        .import("l", "1")
        .import("l", "_")
        .func(None, [op::call(1), op::drop()].concat())
        .func(
            Some("batch"),
            [
                op::loop_start(),
                op::call(2),
                op::i32_const_zero(),
                op::br_if(0),
                op::end(),
            ]
            .concat(),
        )
        .func(Some("get"), [op::call(0), op::drop()].concat())
        .custom("contractenvmetav0", vec![0; 4])
        .build()
}

fn ids(r: &StaticProfile) -> Vec<String> {
    r.suggestions.iter().map(|s| s.id.clone()).collect()
}

fn suggestion(id: &str, severity: FindingSeverity, function: Option<&str>) -> Suggestion {
    Suggestion {
        id: id.to_string(),
        severity,
        category: "cpu".to_string(),
        function: function.map(str::to_string),
        title: "t".to_string(),
        evidence: "e".to_string(),
        recommendation: "r".to_string(),
        basis: Basis::Static,
        estimated_savings_stroops: None,
    }
}

#[test]
fn bar_scales() {
    assert_eq!(bar(0, 10, 10), "");
    assert_eq!(bar(10, 10, 10), "##########");
    assert_eq!(bar(5, 10, 10), "#####");
    assert_eq!(bar(1, 1000, 10), "#");
}

#[test]
fn bar_rounds_halves_up_and_clamps() {
    assert_eq!(bar(1, 4, 2), "#");
    assert_eq!(bar(3, 4, 2), "##");
    assert_eq!(bar(20, 10, 3), "###");
    assert_eq!(bar(7, 0, 10), "");
    assert_eq!(bar(7, 10, 0), "");
}

#[test]
fn format_parsing() {
    assert_eq!(Format::parse("MD").unwrap(), Format::Markdown);
    assert!(Format::parse("html").is_err());
    assert_eq!(Format::from_extension("a.json"), Some(Format::Json));
}

#[test]
fn format_errors_and_extensions() {
    assert_eq!(Format::parse("Txt").unwrap(), Format::Text);
    assert_eq!(
        Format::parse("HTML").unwrap_err(),
        "unknown format 'html': use text, json or markdown"
    );
    assert_eq!(Format::from_extension("out/report.md"), Some(Format::Markdown));
    assert_eq!(Format::from_extension("report.txt"), Some(Format::Text));
    assert_eq!(Format::from_extension("report"), None);
    assert_eq!(Format::from_extension("report.JSON"), None);
}

#[test]
fn severity_helpers() {
    assert!(at_least(&FindingSeverity::Critical, &FindingSeverity::High));
    assert!(!at_least(&FindingSeverity::Low, &FindingSeverity::High));
    assert!(parse_severity("HIGH").is_ok());
    assert!(parse_severity("nope").is_err());
}

#[test]
fn severity_parse_error_names_the_value() {
    assert_eq!(parse_severity("Info").unwrap(), FindingSeverity::Info);
    assert_eq!(
        parse_severity("Nope").unwrap_err(),
        "unknown severity 'nope': use critical, high, medium, low or info"
    );
}

#[test]
fn score_subtracts_penalties_and_stops_at_zero() {
    assert_eq!(score(&[]), 100);
    let two = vec![
        suggestion("GAS-121", FindingSeverity::High, None),
        suggestion("GAS-130", FindingSeverity::Info, None),
    ];
    assert_eq!(score(&two), 79);
    let many: Vec<Suggestion> = (0..4)
        .map(|_| suggestion("GAS-101", FindingSeverity::Critical, None))
        .collect();
    assert_eq!(score(&many), 0);
}

#[test]
fn suggestions_sort_by_severity_id_then_function() {
    let v = vec![
        suggestion("GAS-130", FindingSeverity::Info, Some("a")),
        suggestion("GAS-121", FindingSeverity::High, Some("b")),
        suggestion("GAS-120", FindingSeverity::High, Some("z")),
        suggestion("GAS-121", FindingSeverity::High, Some("a")),
        suggestion("GAS-101", FindingSeverity::Critical, None),
    ];
    let s = sort_suggestions(v);
    let keys: Vec<(String, Option<String>)> =
        s.iter().map(|x| (x.id.clone(), x.function.clone())).collect();
    assert_eq!(
        keys,
        vec![
            ("GAS-101".to_string(), None),
            ("GAS-120".to_string(), Some("z".to_string())),
            ("GAS-121".to_string(), Some("a".to_string())),
            ("GAS-121".to_string(), Some("b".to_string())),
            ("GAS-130".to_string(), Some("a".to_string())),
        ]
    );
}

#[test]
fn suggestion_listing_is_numbered() {
    assert_eq!(render_suggestions_text(&[]), "  No optimization suggestions.\n");
    let mut s = suggestion("GAS-110", FindingSeverity::Medium, None);
    s.basis = Basis::Certain;
    s.estimated_savings_stroops = Some(42);
    let t = render_suggestions_text(&[s]);
    assert_eq!(
        t,
        "  1. [MEDIUM] GAS-110 t (certain)\n     evidence: e\n     fix:      r\n     saves:    ~42 stroops\n"
    );
}

#[test]
fn attributes_host_calls_through_call_graph() {
    let r = profile_bytes(&fixture(), "t", "t.wasm", &cfg()).unwrap();
    let batch = r.function("batch").unwrap();
    assert_eq!(batch.reachable_functions, 2);
    assert_eq!(batch.sites(HostCategory::StorageWrite), 1);
    // helper is called from inside the loop, so its write is a loop site
    assert_eq!(batch.loop_sites(HostCategory::StorageWrite), 1);
    assert_eq!(batch.host_function_loop_sites("put_contract_data"), 1);
    let get = r.function("get").unwrap();
    assert_eq!(get.sites(HostCategory::StorageRead), 1);
    assert_eq!(get.loop_sites(HostCategory::StorageRead), 0);
    // batch ranks above get
    assert_eq!(r.functions[0].name, "batch");
    assert!(r.module.has_env_meta);
}

#[test]
fn cost_index_weights_loops() {
    let r = profile_bytes(&fixture(), "t", "t.wasm", &cfg()).unwrap();
    let batch = r.function("batch").unwrap();
    let expected = batch.reachable_instructions
        + HostCategory::StorageWrite.weight() * LOOP_WEIGHT_MULTIPLIER;
    assert_eq!(batch.cost_index, expected);
}

#[test]
fn profile_reports_module_facts_and_digest() {
    let wasm = fixture();
    let r = profile_bytes(&wasm, "t", "t.wasm", &cfg()).unwrap();
    assert_eq!(r.size_bytes, wasm.len());
    assert_eq!(r.wasm_sha256.len(), 64);
    assert_eq!(r.module.imports, 2);
    assert_eq!(r.module.host_imports, 2);
    assert_eq!(r.module.exported_functions, 2);
    assert_eq!(r.module.defined_functions, 3);
    assert_eq!(r.hotspots.len(), 3);
    assert!(r.upload_fee.total > 0);
    assert!(profile_bytes(b"not wasm", "t", "t.wasm", &cfg()).is_err());
}

#[test]
fn clean_contract_has_no_suggestions() {
    let wasm = ModuleBuilder::new()
        .import("l", "1")
        .func(Some("get"), [op::call(0), op::drop()].concat())
        .custom("contractenvmetav0", vec![0; 4])
        .build();
    let r = profile_bytes(&wasm, "c", "c.wasm", &cfg()).unwrap();
    assert!(r.suggestions.is_empty(), "{:?}", r.suggestions);
    assert_eq!(r.score, 100);
}

#[test]
fn flags_storage_in_loop_only_for_the_right_function() {
    let wasm = ModuleBuilder::new()
        .import("l", "_")
        .func(
            Some("batch"),
            [
                op::loop_start(),
                op::call(0),
                op::drop(),
                op::i32_const_zero(),
                op::br_if(0),
                op::end(),
            ]
            .concat(),
        )
        .func(Some("single"), [op::call(0), op::drop()].concat())
        .custom("contractenvmetav0", vec![0; 4])
        .build();
    let r = profile_bytes(&wasm, "c", "c.wasm", &cfg()).unwrap();
    let s: Vec<_> = r.suggestions.iter().filter(|s| s.id == "GAS-121").collect();
    assert_eq!(s.len(), 1);
    assert_eq!(s[0].function.as_deref(), Some("batch"));
    assert_eq!(s[0].severity, FindingSeverity::High);
}

#[test]
fn storage_write_loop_evidence_names_the_host_function() {
    let wasm = ModuleBuilder::new()
        .import("l", "_")
        .func(
            Some("batch"),
            [
                op::loop_start(),
                op::call(0),
                op::drop(),
                op::i32_const_zero(),
                op::br_if(0),
                op::end(),
            ]
            .concat(),
        )
        .custom("contractenvmetav0", vec![0; 4])
        .build();
    let r = profile_bytes(&wasm, "c", "c.wasm", &cfg()).unwrap();
    let s = r.suggestions.iter().find(|s| s.id == "GAS-121").unwrap();
    assert_eq!(s.title, "Storage write inside a loop in `batch`");
    assert_eq!(
        s.evidence,
        "1 storage-write call site(s) run inside loops (put_contract_data x1)"
    );
    assert_eq!(r.score, 80);
}

#[test]
fn flags_compatibility_blockers() {
    let wasm = ModuleBuilder::new()
        .import("env", "abort")
        .func(Some("f"), [op::f64_const_zero(), op::drop()].concat())
        .start(1)
        .build();
    let r = profile_bytes(&wasm, "c", "c.wasm", &cfg()).unwrap();
    let ids = ids(&r);
    for id in ["GAS-101", "GAS-102", "GAS-104", "GAS-105"] {
        assert!(ids.contains(&id.to_string()), "missing {} in {:?}", id, ids);
    }
    assert!(r.has_critical());
}

#[test]
fn strip_savings_are_exact() {
    let wasm = ModuleBuilder::new()
        .func(Some("f"), vec![])
        .custom("contractenvmetav0", vec![0; 4])
        .custom(".debug_info", vec![7; 8 * 1024])
        .build();
    let r = profile_bytes(&wasm, "c", "c.wasm", &cfg()).unwrap();
    let s = r.suggestions.iter().find(|s| s.id == "GAS-110").unwrap();
    let expected = upload_savings(
        r.size_bytes as u64,
        r.module.strippable_custom_bytes as u64,
        &cfg().fees,
    );
    assert_eq!(s.estimated_savings_stroops, Some(expected));
    assert!(expected > 0);
    assert_eq!(s.severity, FindingSeverity::Medium);
}
