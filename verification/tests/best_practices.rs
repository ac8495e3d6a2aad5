use starforge::security::best_practices::{
    findings_at_or_above, rule_library, AnalyzerOptions, BestPracticesAnalyzer, ContractSource,
    Finding, ReportFormat, Severity, TrackedStatus,
};
use std::collections::BTreeSet;

const VULNERABLE: &str = r#"#![no_std]
use soroban_sdk::{contract, contractimpl, Address, Env};

#[contract]
pub struct Token;

#[contractimpl]
impl Token {
    pub fn initialize(env: Env, admin: Address) {
        env.storage().instance().set(&DataKey::Admin, &admin);
    }

    /// Mint tokens.
    pub fn mint(env: Env, to: Address, amount: i128) {
        let balance: i128 = env.storage().persistent().get(&to).unwrap();
        env.storage().persistent().set(&to, &(balance + amount));
    }

    /// Upgrade.
    pub fn upgrade(env: Env, hash: BytesN<32>) {
        env.deployer().update_current_contract_wasm(hash);
    }

    /// Lottery.
    pub fn draw(env: Env) -> u64 {
        env.ledger().timestamp() % 10
    }
}

#[cfg(test)]
mod test {
    fn t() {
        env.mock_all_auths();
        let x = foo().unwrap();
    }
}
"#;

const HARDENED: &str = r#"#![no_std]
use soroban_sdk::{contract, contractimpl, Address, Env};

#[contract]
pub struct Token;

#[contractimpl]
impl Token {
    /// Initialize once.
    pub fn initialize(env: Env, admin: Address) {
        if env.storage().instance().has(&DataKey::Admin) {
            panic_with_error!(&env, Error::AlreadyInitialized);
        }
        env.storage().instance().set(&DataKey::Admin, &admin);
        env.storage().instance().extend_ttl(100, 1000);
    }

    /// Mint tokens; admin only.
    pub fn mint(env: Env, to: Address, amount: i128) -> Result<(), Error> {
        let admin: Address = read_admin(&env)?;
        admin.require_auth();
        let balance: i128 = env.storage().persistent().get(&to).unwrap_or(0);
        let next = balance.checked_add(amount).ok_or(Error::Overflow)?;
        env.storage().persistent().set(&to, &next);
        env.storage().persistent().extend_ttl(&to, 100, 1000);
        env.events().publish((symbol_short!("mint"), to), amount);
        Ok(())
    }
}
"#;

fn findings_of(analyzer: &BestPracticesAnalyzer, path: &str, source: &str) -> Vec<Finding> {
    analyzer
        .collect_findings(&vec![(path.to_string(), source.to_string())])
        .0
}

fn hits(findings: &[Finding], rule: &str) -> usize {
    findings.iter().filter(|f| f.rule_id == rule).count()
}

#[test]
fn library_rules_are_unique_and_referenced() {
    let rules = rule_library();
    let ids: BTreeSet<&str> = rules.iter().map(|r| r.id).collect();
    assert_eq!(ids.len(), rules.len());
    assert!(rules.len() >= 15);
    assert!(rules.iter().all(|r| !r.references.is_empty()));
    assert!(rules.iter().all(|r| !r.recommendation.is_empty()));
}

#[test]
fn source_parser_finds_contract_functions_and_test_modules() {
    let src = ContractSource::parse("lib.rs", VULNERABLE);
    let names: Vec<&str> = src
        .functions
        .iter()
        .filter(|f| f.in_contract_impl)
        .map(|f| f.name.as_str())
        .collect();
    assert_eq!(names, vec!["initialize", "mint", "upgrade", "draw"]);
    assert!(!src.functions.iter().any(|f| f.name == "t"));
    let mint = src.functions.iter().find(|f| f.name == "mint").unwrap();
    assert!(mint.documented);
    assert!(!src.functions[0].documented);
}

#[test]
fn parser_marks_test_module_lines() {
    let src = ContractSource::parse("lib.rs", VULNERABLE);
    let attr = VULNERABLE.lines().position(|l| l.starts_with("#[cfg(test)]")).unwrap() + 1;
    assert!(src.in_test_code(attr));
    assert!(!src.in_test_code(attr - 1));
    assert!(src.in_test_code(attr + 1));
    assert!(src.in_test_code(src.lines.len()));
    assert!(!src.in_test_code(1));
}

#[test]
fn vulnerable_contract_findings_per_rule() {
    let findings = findings_of(&BestPracticesAnalyzer::default(), "src/lib.rs", VULNERABLE);
    assert_eq!(hits(&findings, "SF-AUTH-001"), 1);
    assert_eq!(hits(&findings, "SF-AUTH-002"), 1);
    assert_eq!(hits(&findings, "SF-AUTH-003"), 1);
    assert_eq!(hits(&findings, "SF-ARITH-001"), 1);
    assert_eq!(hits(&findings, "SF-ERR-001"), 1);
    assert_eq!(hits(&findings, "SF-STORE-001"), 1);
    assert_eq!(hits(&findings, "SF-RAND-001"), 1);
    assert_eq!(hits(&findings, "SF-EVT-001"), 1);
    assert_eq!(hits(&findings, "SF-DOC-001"), 1);
    assert_eq!(hits(&findings, "SF-AUTH-004"), 0);
    assert_eq!(findings[0].severity, Severity::Critical);
    // Most severe first, then by file and line.
    for pair in findings.windows(2) {
        assert!(pair[0].severity >= pair[1].severity);
        if pair[0].severity == pair[1].severity {
            assert!(pair[0].line <= pair[1].line);
        }
    }
    let auth = findings.iter().find(|f| f.rule_id == "SF-AUTH-001").unwrap();
    assert_eq!(auth.function.as_deref(), Some("mint"));
    assert_eq!(auth.evidence, "`mint` writes storage without require_auth()");
    assert_eq!(auth.fingerprint.len(), 16);
    assert!(auth.fingerprint.chars().all(|c| c.is_ascii_hexdigit() && !c.is_ascii_uppercase()));
}

#[test]
fn hardened_contract_has_no_findings() {
    let findings = findings_of(&BestPracticesAnalyzer::default(), "src/lib.rs", HARDENED);
    assert!(findings.is_empty());
}

#[test]
fn inline_suppression_silences_only_its_rule() {
    let source = HARDENED.replace(
        "        let balance: i128 = env.storage().persistent().get(&to).unwrap_or(0);",
        "        // starforge-allow(SF-ERR-001): key is set during initialize\n        let balance: i128 = env.storage().persistent().get(&to).unwrap();\n        let other = foo().unwrap();",
    );
    let (findings, suppressed) = BestPracticesAnalyzer::default()
        .collect_findings(&vec![("src/lib.rs".to_string(), source)]);
    assert_eq!(suppressed.len(), 1);
    assert_eq!(suppressed[0].justification, "key is set during initialize");
    assert_eq!(suppressed[0].rule_id, "SF-ERR-001");
    assert_eq!(hits(&findings, "SF-ERR-001"), 1);
}

#[test]
fn suppression_without_reason_gets_default_justification() {
    let source = HARDENED.replace(
        "        let balance: i128 = env.storage().persistent().get(&to).unwrap_or(0);",
        "        let balance: i128 = env.storage().persistent().get(&to).unwrap(); // starforge-allow(SF-ERR-001)",
    );
    let (_, suppressed) = BestPracticesAnalyzer::default()
        .collect_findings(&vec![("src/lib.rs".to_string(), source)]);
    assert_eq!(suppressed.len(), 1);
    assert_eq!(suppressed[0].justification, "no justification given");
}

#[test]
fn options_select_rules_by_severity_and_id() {
    let analyzer = BestPracticesAnalyzer::new(AnalyzerOptions {
        min_severity: Some(Severity::High),
        disabled_rules: vec!["SF-RAND-001".to_string()],
    });
    assert!(analyzer.rules().iter().all(|r| r.severity >= Severity::High));
    assert!(analyzer.rules().iter().all(|r| r.id != "SF-RAND-001"));
    let findings = findings_of(&analyzer, "lib.rs", VULNERABLE);
    assert_eq!(hits(&findings, "SF-RAND-001"), 0);
    assert_eq!(hits(&findings, "SF-ERR-001"), 0);
    assert!(findings_at_or_above(&findings, Severity::Critical));
    assert_eq!(BestPracticesAnalyzer::default().rules().len(), rule_library().len());
}

#[test]
fn release_profile_without_overflow_checks_is_reported() {
    let manifest = "[package]\nname = \"c\"\n\n[profile.release]\nopt-level = \"z\"\n";
    let findings = findings_of(&BestPracticesAnalyzer::default(), "Cargo.toml", manifest);
    assert_eq!(hits(&findings, "SF-ARITH-002"), 1);
    assert_eq!(findings.iter().find(|f| f.rule_id == "SF-ARITH-002").unwrap().line, 4);
    let fixed = format!("{}overflow-checks = true\n", manifest);
    let findings = findings_of(&BestPracticesAnalyzer::default(), "Cargo.toml", &fixed);
    assert_eq!(hits(&findings, "SF-ARITH-002"), 0);
}

#[test]
fn missing_no_std_is_reported_on_line_one() {
    let source = VULNERABLE.replacen("#![no_std]\n", "", 1);
    let findings = findings_of(&BestPracticesAnalyzer::default(), "src/lib.rs", &source);
    let f = findings.iter().find(|f| f.rule_id == "SF-BASE-001").unwrap();
    assert_eq!(f.line, 1);
    assert_eq!(f.evidence, "contract crate root does not declare #![no_std]");
}

#[test]
fn fingerprints_survive_line_moves() {
    let a = findings_of(&BestPracticesAnalyzer::default(), "src/lib.rs", VULNERABLE);
    let shifted = VULNERABLE.replacen("#![no_std]\n", "#![no_std]\n\n\n", 1);
    let b = findings_of(&BestPracticesAnalyzer::default(), "src/lib.rs", &shifted);
    let fa: BTreeSet<_> = a.iter().map(|f| f.fingerprint.clone()).collect();
    let fb: BTreeSet<_> = b.iter().map(|f| f.fingerprint.clone()).collect();
    assert_eq!(fa, fb);
    assert!(a.iter().zip(b.iter()).all(|(x, y)| x.line + 2 == y.line));
}

#[test]
fn fingerprints_depend_on_the_file() {
    let a = findings_of(&BestPracticesAnalyzer::default(), "a.rs", VULNERABLE);
    let b = findings_of(&BestPracticesAnalyzer::default(), "b.rs", VULNERABLE);
    assert_eq!(a.len(), b.len());
    let fa: BTreeSet<_> = a.iter().map(|f| f.fingerprint.clone()).collect();
    assert!(b.iter().all(|f| !fa.contains(&f.fingerprint)));
}

#[test]
fn external_call_before_state_write_is_reported() {
    let source = "#[contractimpl]\nimpl C {\n    /// Swap.\n    pub fn swap(env: Env) {\n        let c = TokenClient::new(&env, &id);\n        env.storage().persistent().set(&K, &1);\n        env.events().publish((1,), 1);\n    }\n}\n";
    let findings = findings_of(&BestPracticesAnalyzer::default(), "src/lib.rs", source);
    let f = findings.iter().find(|f| f.rule_id == "SF-EXT-001").unwrap();
    assert_eq!(f.evidence, "`swap` writes state after an external contract call (line 5)");
}

#[test]
fn report_format_and_status_names() {
    assert_eq!(ReportFormat::parse(" MD ").unwrap(), ReportFormat::Markdown);
    assert_eq!(ReportFormat::parse("sarif").unwrap(), ReportFormat::Sarif);
    assert_eq!(
        ReportFormat::parse("pdf").unwrap_err(),
        "unsupported report format 'pdf'; use text, markdown, json, or sarif"
    );
    assert_eq!(TrackedStatus::Accepted.label(), "accepted");
    assert_eq!(Severity::parse(" High ").unwrap(), Severity::High);
    assert!(Severity::parse("urgent").is_err());
    assert_eq!(Severity::Medium.sarif_level(), "warning");
}

#[test]
fn severity_labels_parse_back() {
    for s in [Severity::Info, Severity::Low, Severity::Medium, Severity::High, Severity::Critical] {
        assert_eq!(Severity::parse(s.label()), Ok(s));
        assert_eq!(Severity::parse(&format!("  {}  ", s.label().to_uppercase())), Ok(s));
    }
    assert!(Severity::parse("severe").is_err());
}
