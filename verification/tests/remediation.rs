use starforge::security::best_practices::{
    findings_at_or_above, rule_library, AnalyzerOptions, BestPracticesAnalyzer, Finding, Severity,
    SuppressedFinding, TrackedStatus,
};
use starforge::security::remediation::{recommendations, reconcile, set_tracked_status, TrackedFinding};
use std::collections::BTreeSet;

const VULNERABLE: &str = r#"#![no_std]
use soroban_sdk::{contract, contractimpl, Address, Env};

#[contract]
pub struct Token;

#[contractimpl]
impl Token {
    pub fn initialize(env: Env, admin: Address) {
        env.storage().instance().set(&DataKey::Admin, &admin);
    }

    /// Mint tokens.
    pub fn mint(env: Env, to: Address, amount: i128) {
        let balance: i128 = env.storage().persistent().get(&to).unwrap();
        env.storage().persistent().set(&to, &(balance + amount));
    }

    /// Upgrade.
    pub fn upgrade(env: Env, hash: BytesN<32>) {
        env.deployer().update_current_contract_wasm(hash);
    }

    /// Lottery.
    pub fn draw(env: Env) -> u64 {
        env.ledger().timestamp() % 10
    }
}

#[cfg(test)]
mod test {
    fn t() {
        env.mock_all_auths();
        let x = foo().unwrap();
    }
}
"#;

const HARDENED: &str = r#"#![no_std]
use soroban_sdk::{contract, contractimpl, Address, Env};

#[contract]
pub struct Token;

#[contractimpl]
impl Token {
    /// Initialize once.
    pub fn initialize(env: Env, admin: Address) {
        if env.storage().instance().has(&DataKey::Admin) {
            panic_with_error!(&env, Error::AlreadyInitialized);
        }
        env.storage().instance().set(&DataKey::Admin, &admin);
        env.storage().instance().extend_ttl(100, 1000);
    }

    /// Mint tokens; admin only.
    pub fn mint(env: Env, to: Address, amount: i128) -> Result<(), Error> {
        let admin: Address = read_admin(&env)?;
        admin.require_auth();
        let balance: i128 = env.storage().persistent().get(&to).unwrap_or(0);
        let next = balance.checked_add(amount).ok_or(Error::Overflow)?;
        env.storage().persistent().set(&to, &next);
        env.storage().persistent().extend_ttl(&to, 100, 1000);
        env.events().publish((symbol_short!("mint"), to), amount);
        Ok(())
    }
}
"#;

fn analyze(source: &str) -> (Vec<Finding>, Vec<SuppressedFinding>) {
    BestPracticesAnalyzer::default().collect_findings(&vec![("src/lib.rs".to_string(), source.to_string())])
}

fn rule_hits(findings: &[Finding], rule: &str) -> usize {
    findings.iter().filter(|f| f.rule_id == rule).count()
}

fn track(state: &mut Vec<TrackedFinding>, findings: &Vec<Finding>, file: &str, now: &str) -> starforge::security::remediation::RemediationProgress {
    reconcile(state, findings, &vec![file.to_string()], now)
}

#[test]
fn vulnerable_contract_triggers_expected_rules() {
    let (findings, _) = analyze(VULNERABLE);
    assert_eq!(rule_hits(&findings, "SF-AUTH-001"), 1, "{:#?}", findings);
    assert_eq!(rule_hits(&findings, "SF-AUTH-002"), 1);
    assert_eq!(rule_hits(&findings, "SF-AUTH-003"), 1);
    assert_eq!(rule_hits(&findings, "SF-ARITH-001"), 1);
    assert_eq!(rule_hits(&findings, "SF-ERR-001"), 1);
    assert_eq!(rule_hits(&findings, "SF-STORE-001"), 1);
    assert_eq!(rule_hits(&findings, "SF-RAND-001"), 1);
    assert_eq!(rule_hits(&findings, "SF-EVT-001"), 1);
    assert_eq!(rule_hits(&findings, "SF-DOC-001"), 1);
    // Test-only code is ignored.
    assert_eq!(rule_hits(&findings, "SF-AUTH-004"), 0);
    assert_eq!(findings[0].severity, Severity::Critical);
    let recs = recommendations(&rule_library(), &findings);
    assert_eq!(recs[0].priority, 1);
    assert_eq!(recs[0].severity, Severity::Critical);
}

#[test]
fn recommendations_rank_by_impact_and_list_locations() {
    let (findings, _) = analyze(VULNERABLE);
    let recs = recommendations(&rule_library(), &findings);
    assert_eq!(recs.len(), BTreeSet::<&str>::from_iter(findings.iter().map(|f| f.rule_id.as_str())).len());
    for (i, r) in recs.iter().enumerate() {
        assert_eq!(r.priority, i + 1);
        assert_eq!(r.occurrences, r.locations.len());
        assert!(r.locations.iter().all(|l| l.starts_with("src/lib.rs:")));
    }
    let auth = recs.iter().find(|r| r.rule_id == "SF-AUTH-001").unwrap();
    let line = findings.iter().find(|f| f.rule_id == "SF-AUTH-001").unwrap().line;
    assert_eq!(auth.locations, vec![format!("src/lib.rs:{}", line)]);
    assert!(!auth.references.is_empty());
    assert!(recommendations(&rule_library(), &Vec::new()).is_empty());
}

#[test]
fn inline_suppressions_require_matching_rule() {
    let source = HARDENED.replace(
        "        let balance: i128 = env.storage().persistent().get(&to).unwrap_or(0);",
        "        // starforge-allow(SF-ERR-001): key is set during initialize\n        let balance: i128 = env.storage().persistent().get(&to).unwrap();\n        let other = foo().unwrap();",
    );
    let (findings, suppressed) = analyze(&source);
    assert_eq!(suppressed.len(), 1);
    assert_eq!(suppressed[0].justification, "key is set during initialize");
    assert_eq!(rule_hits(&findings, "SF-ERR-001"), 1);
}

#[test]
fn options_filter_rules() {
    let analyzer = BestPracticesAnalyzer::new(AnalyzerOptions {
        min_severity: Some(Severity::High),
        disabled_rules: vec!["SF-RAND-001".to_string()],
    });
    assert!(analyzer.rules().iter().all(|r| r.severity >= Severity::High));
    let (findings, _) = analyzer.collect_findings(&vec![("lib.rs".to_string(), VULNERABLE.to_string())]);
    assert_eq!(rule_hits(&findings, "SF-RAND-001"), 0);
    assert_eq!(rule_hits(&findings, "SF-ERR-001"), 0);
    assert!(findings_at_or_above(&findings, Severity::Critical));
}

#[test]
fn cargo_manifest_overflow_checks() {
    let manifest = "[package]\nname = \"c\"\n\n[profile.release]\nopt-level = \"z\"\n";
    let (findings, _) = BestPracticesAnalyzer::default()
        .collect_findings(&vec![("Cargo.toml".to_string(), manifest.to_string())]);
    assert_eq!(rule_hits(&findings, "SF-ARITH-002"), 1);
    let fixed = format!("{}overflow-checks = true\n", manifest);
    let (findings, _) = BestPracticesAnalyzer::default().collect_findings(&vec![("Cargo.toml".to_string(), fixed)]);
    assert_eq!(rule_hits(&findings, "SF-ARITH-002"), 0);
}

#[test]
fn fingerprints_are_stable_across_line_moves() {
    let (a, _) = analyze(VULNERABLE);
    let shifted = VULNERABLE.replacen("#![no_std]\n", "#![no_std]\n\n\n", 1);
    let (b, _) = analyze(&shifted);
    let fa: BTreeSet<_> = a.iter().map(|f| &f.fingerprint).collect();
    let fb: BTreeSet<_> = b.iter().map(|f| &f.fingerprint).collect();
    assert_eq!(fa, fb);
}

#[test]
fn remediation_tracker_follows_findings_across_runs() {
    let mut state: Vec<TrackedFinding> = Vec::new();

    let (first, _) = analyze(VULNERABLE);
    let progress = track(&mut state, &first, "src/lib.rs", "t1");
    assert_eq!(progress.new, first.len());
    assert_eq!(progress.open, first.len());

    // Accept one finding as known risk.
    let accepted = first.last().unwrap().fingerprint.clone();
    let updated = set_tracked_status(
        &mut state,
        &accepted[..8],
        TrackedStatus::Accepted,
        Some("tracked in #1".into()),
        "t1",
    )
    .unwrap();
    assert_eq!(updated.status, TrackedStatus::Accepted);

    // Fixing the contract resolves the remaining open findings.
    let (second, _) = analyze(HARDENED);
    let progress = track(&mut state, &second, "src/lib.rs", "t2");
    assert_eq!(progress.new, 0);
    assert_eq!(progress.open, 0);
    assert_eq!(progress.accepted, 1);
    assert_eq!(progress.resolved_this_run, first.len() - 1);

    // Regressing reopens them.
    let (third, _) = analyze(VULNERABLE);
    let progress = track(&mut state, &third, "src/lib.rs", "t3");
    assert_eq!(progress.new, first.len() - 1);

    assert!(set_tracked_status(&mut state, "zzzz", TrackedStatus::Open, None, "t3").is_err());
}

#[test]
fn tracking_only_resolves_findings_in_analyzed_files() {
    let mut state: Vec<TrackedFinding> = Vec::new();
    let (first, _) = BestPracticesAnalyzer::default()
        .collect_findings(&vec![("a.rs".to_string(), VULNERABLE.to_string())]);
    track(&mut state, &first, "a.rs", "t1");
    let (other, _) = BestPracticesAnalyzer::default()
        .collect_findings(&vec![("b.rs".to_string(), HARDENED.to_string())]);
    let progress = track(&mut state, &other, "b.rs", "t2");
    assert_eq!(progress.resolved_this_run, 0);
    assert_eq!(progress.open, first.len());
}

#[test]
fn reopened_findings_keep_their_history() {
    let mut state: Vec<TrackedFinding> = Vec::new();
    let (first, _) = analyze(VULNERABLE);
    track(&mut state, &first, "src/lib.rs", "t1");
    track(&mut state, &Vec::new(), "src/lib.rs", "t2");
    assert!(state.iter().all(|t| t.status == TrackedStatus::Resolved));
    assert!(state.iter().all(|t| t.resolved_at.as_deref() == Some("t2")));
    track(&mut state, &first, "src/lib.rs", "t3");
    assert!(state.iter().all(|t| t.status == TrackedStatus::Open));
    assert!(state.iter().all(|t| t.first_seen == "t1" && t.last_seen == "t3"));
    assert!(state.iter().all(|t| t.resolved_at.is_none()));
}

#[test]
fn ambiguous_or_unknown_prefixes_are_refused() {
    let mut state: Vec<TrackedFinding> = Vec::new();
    let (first, _) = analyze(VULNERABLE);
    track(&mut state, &first, "src/lib.rs", "t1");
    let err = set_tracked_status(&mut state, "", TrackedStatus::Accepted, None, "t1").unwrap_err();
    assert_eq!(err, format!("'' matches {} findings; use a longer fingerprint", first.len()));
    assert_eq!(
        set_tracked_status(&mut state, "zzzz", TrackedStatus::Open, None, "t1").unwrap_err(),
        "no tracked finding matches 'zzzz'"
    );
    let fp = first[0].fingerprint.clone();
    let t = set_tracked_status(&mut state, &fp, TrackedStatus::Resolved, None, "t9").unwrap();
    assert_eq!(t.resolved_at.as_deref(), Some("t9"));
    assert_eq!(t.note, None);
}
