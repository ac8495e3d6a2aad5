use starforge::perf_regression::{
    summarize, validate_baseline_name, BaselineStore, ComparisonSummary, FailOn, MetricStatus,
    ReportFormat, Verdict, DEFAULT_BASELINE_DIR,
};

#[test]
fn fail_on_controls_exit_behaviour() {
    assert!(FailOn::Regression.should_fail(Verdict::Fail));
    assert!(!FailOn::Regression.should_fail(Verdict::Warn));
    assert!(FailOn::Warning.should_fail(Verdict::Warn));
    assert!(!FailOn::Never.should_fail(Verdict::Fail));
    assert!(FailOn::parse("bogus").is_err());
}

#[test]
fn fail_on_parsing_accepts_aliases() {
    assert_eq!(FailOn::parse(" WARN ").unwrap(), FailOn::Warning);
    assert_eq!(FailOn::parse("never").unwrap(), FailOn::Never);
    assert_eq!(
        FailOn::parse("Bogus").unwrap_err(),
        "unsupported --fail-on 'bogus'; use regression, warning, or never"
    );
}

#[test]
fn report_formats_and_labels() {
    assert_eq!(ReportFormat::parse("MD").unwrap(), ReportFormat::Markdown);
    assert_eq!(ReportFormat::parse("json").unwrap(), ReportFormat::Json);
    assert!(ReportFormat::parse("html").is_err());
    assert_eq!(MetricStatus::Regressed.label(), "regressed");
    assert_eq!(Verdict::Warn.label(), "WARN");
    assert_eq!(ComparisonSummary::default().regressed, 0);
    let store = BaselineStore::new(DEFAULT_BASELINE_DIR.to_string());
    assert_eq!(store.dir(), ".starforge/perf-baselines");
}

#[test]
fn baseline_names_are_checked() {
    assert!(validate_baseline_name("main").is_ok());
    assert!(validate_baseline_name("release-1.2_rc").is_ok());
    assert_eq!(
        validate_baseline_name("../escape").unwrap_err(),
        "invalid baseline name '../escape'; use letters, digits, '-', '_' or '.'"
    );
    assert!(validate_baseline_name("").is_err());
    assert!(validate_baseline_name(".hidden").is_err());
    assert!(validate_baseline_name("a b").is_err());
}

#[test]
fn summaries_count_statuses_and_give_the_verdict() {
    let (s, v) = summarize(&[
        MetricStatus::Unchanged,
        MetricStatus::Improved,
        MetricStatus::New,
        MetricStatus::Missing,
    ]);
    assert_eq!((s.unchanged, s.improved, s.new, s.missing, s.regressed, s.warnings), (1, 1, 1, 1, 0, 0));
    assert_eq!(v, Verdict::Warn);
    let (s, v) = summarize(&[MetricStatus::Regressed, MetricStatus::Warning, MetricStatus::Regressed]);
    assert_eq!((s.regressed, s.warnings), (2, 1));
    assert_eq!(v, Verdict::Fail);
    assert_eq!(summarize(&[]).1, Verdict::Pass);
    assert_eq!(summarize(&[MetricStatus::Improved]).1, Verdict::Pass);
}
