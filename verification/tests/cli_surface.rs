use starforge::commands::{
    bug_report_markdown, bug_report_output, privacy_mode_action, BugReportOutput, PrivacyModeAction,
};
use starforge::database::{
    aggregate_sql, db_path, rollback_target, search_sql, AggregationBucket, EventSearchFilters,
    MigrationError,
};
use starforge::gas_profiler::measure::parse_sim_spec;
use starforge::output::{is_json_mode_enabled, is_truthy, plain_mode_from, JsonEnvelope};
use starforge::simulation_report::{render_report, ReportLine};
use starforge::simulation_resources::{ResourceFeePlan, SimulationFootprint, SimulationResources};

fn no_filters() -> EventSearchFilters {
    EventSearchFilters {
        contract_id: None,
        event_type: None,
        min_ledger: None,
        max_ledger: None,
        start_time: None,
        end_time: None,
        network: None,
        limit: None,
        offset: None,
    }
}

#[test]
fn sim_spec_parsing() {
    let (n, p) = parse_sim_spec("transfer=sims/t.json").unwrap();
    assert_eq!(n, "transfer");
    assert_eq!(p, "sims/t.json");
    let (n, _) = parse_sim_spec("sims/mint.json").unwrap();
    assert_eq!(n, "mint");
    assert!(parse_sim_spec("=x").is_err());
}

#[test]
fn sim_spec_trims_and_names_the_error() {
    let (n, p) = parse_sim_spec(" burn = sims/b.json ").unwrap();
    assert_eq!((n.as_str(), p.as_str()), ("burn", "sims/b.json"));
    assert_eq!(
        parse_sim_spec("mint=  ").unwrap_err(),
        "invalid --sim 'mint=  ': expected FUNCTION=PATH"
    );
}

#[test]
fn truthy_values_enable_json_mode() {
    for v in ["1", "true", " YES ", "On"] {
        assert!(is_json_mode_enabled(Some(v)), "{}", v);
    }
}

#[test]
fn falsy_and_missing_values_leave_json_mode_off() {
    for v in ["0", "false", "", "no", "enabled"] {
        assert!(!is_json_mode_enabled(Some(v)), "{}", v);
    }
    assert!(!is_json_mode_enabled(None));
    assert!(!is_truthy(None));
}

#[test]
fn plain_mode_sources() {
    assert!(!plain_mode_from(None, None, None));
    assert!(plain_mode_from(Some("1"), None, None));
    assert!(plain_mode_from(None, Some("anything"), None));
    assert!(!plain_mode_from(None, Some(""), None));
    assert!(plain_mode_from(None, None, Some("true")));
    assert!(!plain_mode_from(Some("0"), Some(""), Some("off")));
}

#[test]
fn json_envelopes_have_a_stable_shape() {
    let ok = JsonEnvelope::success(7u32);
    assert_eq!((ok.version, ok.ok, ok.data, ok.error.is_none()), (1, true, Some(7), true));
    let err = JsonEnvelope::<u32>::failure("E_CFG", "bad config");
    assert_eq!((err.version, err.ok, err.data), (1, false, None));
    let e = err.error.unwrap();
    assert_eq!((e.code.as_str(), e.message.as_str()), ("E_CFG", "bad config"));
}

#[test]
fn privacy_mode_actions() {
    assert_eq!(privacy_mode_action("on"), PrivacyModeAction::Enable);
    assert_eq!(privacy_mode_action("off"), PrivacyModeAction::Disable);
    assert_eq!(privacy_mode_action("status"), PrivacyModeAction::Status);
}

#[test]
fn bug_report_outputs_and_body() {
    assert_eq!(bug_report_output("markdown"), Some(BugReportOutput::Markdown));
    assert_eq!(bug_report_output("url"), Some(BugReportOutput::UrlFallback));
    assert_eq!(bug_report_output("html"), None);
    let r = bug_report_markdown("0.3.1", "linux", "x86_64", "/bin/zsh", "xterm", "iTerm");
    assert!(r.starts_with("## StarForge Bug Report\n"));
    assert!(r.contains("| starforge      | 0.3.1 |\n"));
    assert!(r.contains("| OS             | linux (x86_64) |\n"));
    assert!(r.contains("| Terminal       | iTerm (xterm) |\n"));
    assert!(r.ends_with("```\n\n```\n"));
}

#[test]
fn db_path_joins_the_config_dir() {
    assert_eq!(db_path("/home/a/.config/starforge"), "/home/a/.config/starforge/starforge.db");
    assert_eq!(db_path("/tmp/"), "/tmp/starforge.db");
    assert_eq!(db_path(""), "starforge.db");
}

#[test]
fn rollback_only_takes_the_latest_migration() {
    assert_eq!(rollback_target(&vec![1], 1), Ok(0));
    assert_eq!(rollback_target(&vec![1, 2, 3], 3), Ok(2));
    assert_eq!(
        rollback_target(&vec![1, 2], 1).unwrap_err(),
        "Can only rollback the latest migration (2), tried to rollback 1"
    );
    assert_eq!(
        rollback_target(&vec![1], 5).unwrap_err(),
        "Migration version 5 is not applied"
    );
    assert_eq!(rollback_target(&vec![], 1).unwrap_err(), "No migrations applied");
}

#[test]
fn migration_error_messages() {
    assert_eq!(MigrationError::NotFound(7).message(), "Migration version 7 not found");
    assert_eq!(
        MigrationError::UnsupportedVersion(-1, 0, 1).message(),
        "Database schema version -1 is not supported (minimum: 0, maximum: 1)"
    );
    assert_eq!(
        MigrationError::MissingDependency(3, 2).message(),
        "Migration version 3 depends on unapplied version 2"
    );
}

#[test]
fn event_queries_bind_only_the_given_filters() {
    let (sql, params) = search_sql(&no_filters());
    assert_eq!(
        sql,
        "SELECT id, event_type, contract_id, ledger, topics, value, timestamp, network FROM events WHERE 1=1 ORDER BY timestamp DESC LIMIT 100 OFFSET 0"
    );
    assert!(params.is_empty());
    let mut f = no_filters();
    f.contract_id = Some("C1".into());
    f.min_ledger = Some(10);
    f.network = Some("testnet".into());
    f.limit = Some(5);
    f.offset = Some(20);
    let (sql, params) = search_sql(&f);
    assert!(sql.contains("WHERE 1=1 AND contract_id = ? AND ledger >= ? AND network = ? ORDER BY"));
    assert!(sql.ends_with("LIMIT 5 OFFSET 20"));
    assert_eq!(params, vec!["C1".to_string(), "10".to_string(), "testnet".to_string()]);
    let (agg, params) = aggregate_sql(AggregationBucket::Day, &f);
    assert_eq!(
        agg,
        "SELECT strftime('%Y-%m-%d', timestamp) AS bucket, COUNT(*) AS count FROM events WHERE 1=1 AND contract_id = ? AND ledger >= ? AND network = ? GROUP BY bucket ORDER BY bucket DESC"
    );
    assert_eq!(params.len(), 3);
}

#[test]
fn resource_report_lists_resources_and_fees() {
    let resources = SimulationResources {
        min_resource_fee_stroops: 12_345_678,
        cpu_instructions: Some(1_274_180),
        memory_bytes: None,
        footprint: Some(SimulationFootprint {
            read_only_entries: 2,
            read_write_entries: 1,
            read_bytes: 4096,
            write_bytes: 100,
            instructions: 0,
            resource_fee_stroops: 0,
        }),
        latest_ledger: Some(42),
        restore_fee_stroops: None,
        warnings: vec!["no memory usage reported".to_string()],
    };
    let plan = ResourceFeePlan {
        min_resource_fee_stroops: 12_345_678,
        restore_fee_stroops: 0,
        inclusion_fee_stroops: 100,
        margin_percent: 20,
        margin_stroops: 2_469_135,
        recommended_fee_stroops: 14_814_913,
    };
    let lines = render_report(&resources, &plan);
    let field = |k: &str| {
        lines.iter().find_map(|l| match l {
            ReportLine::Field(a, b) | ReportLine::Accent(a, b) if a == k => Some(b.clone()),
            _ => None,
        })
    };
    assert_eq!(lines[0], ReportLine::Header("Simulated Transaction Resources".into()));
    assert_eq!(field("CPU instructions").unwrap(), "1,274,180");
    assert_eq!(field("Memory (bytes)").unwrap(), "not reported");
    assert_eq!(field("Footprint entries").unwrap(), "3 total (2 read-only, 1 read-write)");
    assert_eq!(field("Ledger read bytes").unwrap(), "4,096");
    assert_eq!(field("Simulated at ledger").unwrap(), "42");
    assert_eq!(field("Min resource fee").unwrap(), "12,345,678 stroops (1.2345678 XLM)");
    assert!(field("Restore fee").is_none());
    assert_eq!(field("Safety margin (20%)").unwrap(), "2,469,135 stroops");
    assert_eq!(field("Recommended fee").unwrap(), "14,814,913 stroops (1.4814913 XLM)");
    assert_eq!(lines.last().unwrap(), &ReportLine::Warning("no memory usage reported".into()));
}
