use starforge::simulation_resources::{
    built_in_profiles, get_profile, plan_fee, validate_against_profile, SimulationFootprint,
    SimulationResourceError, SimulationResources, DEFAULT_INCLUSION_FEE_STROOPS,
    MAX_FEE_MARGIN_PERCENT,
};
use starforge::text::format_thousands;

#[test]
fn zero_margin_and_zero_fee_produce_inclusion_fee_only() {
    let res = SimulationResources {
        min_resource_fee_stroops: 0,
        ..Default::default()
    };
    let plan = plan_fee(&res, 0, DEFAULT_INCLUSION_FEE_STROOPS).unwrap();
    assert_eq!(plan.margin_stroops, 0);
    assert_eq!(plan.recommended_fee_stroops, DEFAULT_INCLUSION_FEE_STROOPS);
}

#[test]
fn max_margin_is_accepted_and_one_over_is_rejected() {
    let res = SimulationResources {
        min_resource_fee_stroops: 100,
        ..Default::default()
    };
    assert!(plan_fee(&res, MAX_FEE_MARGIN_PERCENT, 0).is_ok());
    assert_eq!(
        plan_fee(&res, MAX_FEE_MARGIN_PERCENT + 1, 0).unwrap_err(),
        SimulationResourceError::InvalidMargin(MAX_FEE_MARGIN_PERCENT + 1)
    );
}

#[test]
fn saturated_fee_overflow_is_reported_not_wrapped() {
    let res = SimulationResources {
        min_resource_fee_stroops: u64::MAX,
        ..Default::default()
    };
    assert_eq!(
        plan_fee(&res, 100, 0).unwrap_err(),
        SimulationResourceError::FeeOverflow
    );
}

#[test]
fn formats_thousands_separators() {
    assert_eq!(format_thousands(0), "0");
    assert_eq!(format_thousands(999), "999");
    assert_eq!(format_thousands(1_000), "1,000");
    assert_eq!(format_thousands(1_274_180), "1,274,180");
}

#[test]
fn retrieves_built_in_profiles() {
    assert!(get_profile("ci-smoke").is_ok());
    assert!(get_profile("ci-full").is_ok());
    assert!(get_profile("dev-fast").is_ok());
    assert!(get_profile("CI-SMOKE").is_ok());

    let err = get_profile("nonexistent-profile").unwrap_err();
    assert!(matches!(err, SimulationResourceError::UnknownProfile { .. }));
    assert!(err.message().contains("unknown simulation profile"));
    assert!(err.message().contains("ci-smoke"));
}

#[test]
fn validates_simulation_against_profile_ceilings() {
    let profile = get_profile("ci-smoke").unwrap();
    let resources = SimulationResources {
        min_resource_fee_stroops: 50_000,
        cpu_instructions: Some(1_000_000),
        memory_bytes: Some(1_000_000),
        footprint: Some(SimulationFootprint {
            read_only_entries: 2,
            read_write_entries: 2,
            read_bytes: 10_000,
            write_bytes: 2_000,
            instructions: 1_000_000,
            resource_fee_stroops: 50_000,
        }),
        latest_ledger: Some(100),
        restore_fee_stroops: None,
        warnings: Vec::new(),
    };
    let plan = plan_fee(&resources, 20, 100).unwrap();
    let violations = validate_against_profile(&resources, &plan, &profile);
    assert!(violations.is_empty());

    let heavy_resources = SimulationResources {
        min_resource_fee_stroops: 500_000,
        cpu_instructions: Some(10_000_000),
        memory_bytes: Some(10_000_000),
        footprint: Some(SimulationFootprint {
            read_only_entries: 10,
            read_write_entries: 10,
            read_bytes: 50_000,
            write_bytes: 20_000,
            instructions: 10_000_000,
            resource_fee_stroops: 500_000,
        }),
        latest_ledger: Some(100),
        restore_fee_stroops: None,
        warnings: Vec::new(),
    };
    let heavy_plan = plan_fee(&heavy_resources, 20, 100).unwrap();
    let heavy_violations = validate_against_profile(&heavy_resources, &heavy_plan, &profile);
    assert!(!heavy_violations.is_empty());
    assert!(heavy_violations.iter().any(|v| v.metric == "cpu_instructions"));
    assert!(heavy_violations.iter().any(|v| v.metric == "memory_bytes"));
    assert!(heavy_violations.iter().any(|v| v.metric == "footprint_entries"));
    assert!(heavy_violations.iter().any(|v| v.metric == "read_bytes"));
    assert!(heavy_violations.iter().any(|v| v.metric == "write_bytes"));
    assert!(heavy_violations.iter().any(|v| v.metric == "recommended_fee_stroops"));
}

#[test]
fn plan_adds_margin_restore_and_inclusion() {
    let res = SimulationResources {
        min_resource_fee_stroops: 1_000,
        restore_fee_stroops: Some(250),
        ..Default::default()
    };
    assert!(res.requires_restore());
    let plan = plan_fee(&res, 20, 100).unwrap();
    assert_eq!(plan.restore_fee_stroops, 250);
    assert_eq!(plan.margin_stroops, 250);
    assert_eq!(plan.recommended_fee_stroops, 1_600);
}

#[test]
fn margin_rounds_down() {
    let res = SimulationResources { min_resource_fee_stroops: 58_181, ..Default::default() };
    let plan = plan_fee(&res, 20, 100).unwrap();
    assert_eq!(plan.margin_stroops, 11_636);
    assert_eq!(plan.recommended_fee_stroops, 58_181 + 11_636 + 100);
}

#[test]
fn violation_messages_carry_numbers() {
    let profile = get_profile("dev-fast").unwrap();
    let res = SimulationResources {
        cpu_instructions: Some(60_000_000),
        ..Default::default()
    };
    let plan = plan_fee(&res, 0, 0).unwrap();
    let v = validate_against_profile(&res, &plan, &profile);
    assert_eq!(v.len(), 1);
    assert_eq!(v[0].message, "CPU instructions 60000000 exceeded profile ceiling of 50000000");
    assert_eq!(v[0].ceiling, 50_000_000);
}

#[test]
fn built_in_profiles_are_ordered() {
    let names: Vec<String> = built_in_profiles().into_iter().map(|p| p.name).collect();
    assert_eq!(names, vec!["ci-smoke", "ci-full", "dev-fast"]);
    assert_eq!(get_profile("Dev-Fast").unwrap().default_margin_percent, 10);
}

#[test]
fn error_messages() {
    assert_eq!(
        SimulationResourceError::InvalidMargin(1001).message(),
        "fee margin 1001% is out of range (expected 0..=1000)"
    );
    assert_eq!(
        SimulationResourceError::MissingField("minResourceFee".into()).message(),
        "simulation response is missing `minResourceFee`; cannot plan transaction resources"
    );
    let footprint = SimulationFootprint {
        read_only_entries: 3,
        read_write_entries: 4,
        read_bytes: 0,
        write_bytes: 0,
        instructions: 0,
        resource_fee_stroops: 0,
    };
    assert_eq!(footprint.total_entries(), 7);
}
