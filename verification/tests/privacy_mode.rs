use starforge::privacy::{
    assess_privacy_impact, build_privacy_report, minimize_payload, sanitize_payload, ConsentRecord,
    PayloadField,
    anonymize_text, parse_privacy_env_value, privacy_mode_from_config, privacy_mode_from_sources,
    require_online,
};

#[test]
fn parse_privacy_env_accepts_toggle_values() {
    for (raw, expected) in [
        ("1", true),
        ("true", true),
        ("on", true),
        ("enabled", true),
        ("strict", true),
        ("0", false),
        ("false", false),
        ("off", false),
        ("disabled", false),
    ] {
        assert_eq!(parse_privacy_env_value(raw), Some(expected), "raw={raw}");
    }
}

#[test]
fn parse_privacy_env_empty_means_disabled() {
    assert_eq!(parse_privacy_env_value(""), Some(false));
    assert_eq!(parse_privacy_env_value("   "), Some(false));
}

#[test]
fn parse_privacy_env_fails_closed_on_unknown_values() {
    assert_eq!(parse_privacy_env_value("banana"), Some(true));
    assert_eq!(parse_privacy_env_value("maybe"), Some(true));
}

#[test]
fn privacy_mode_config_defaults_to_off() {
    assert!(!privacy_mode_from_config(None));
    assert!(privacy_mode_from_config(Some(true)));
    assert!(!privacy_mode_from_config(Some(false)));
}

#[test]
fn toggle_is_trimmed_and_case_insensitive() {
    assert_eq!(parse_privacy_env_value("  OFF \n"), Some(false));
    assert_eq!(parse_privacy_env_value("No"), Some(false));
    assert_eq!(parse_privacy_env_value(" Strict "), Some(true));
}

#[test]
fn environment_wins_over_configuration() {
    assert!(!privacy_mode_from_sources(Some("0"), Some(Some(true))));
    assert!(privacy_mode_from_sources(Some("weird"), Some(Some(false))));
    assert!(privacy_mode_from_sources(None, Some(Some(true))));
    assert!(!privacy_mode_from_sources(None, None));
}

#[test]
fn outbound_calls_are_blocked_in_privacy_mode() {
    assert!(require_online("telemetry upload", false).is_ok());
    let err = require_online("telemetry upload", true).unwrap_err();
    assert!(err.starts_with("Blocked by strict privacy mode: telemetry upload would contact"));
}

#[test]
fn anonymize_redacts_known_markers() {
    assert_eq!(
        anonymize_text("alice@example.com user +1-555-0100"),
        "[REDACTED_NAME] [REDACTED_EMAIL] example.com [REDACTED_USER] [REDACTED_PHONE]"
    );
    assert_eq!(anonymize_text("nothing here"), "nothing here");
}

fn field(key: &str, text: Option<&str>) -> PayloadField {
    PayloadField { key: key.to_string(), text: text.map(str::to_string) }
}

#[test]
fn assessment_scores_personal_fields_consent_and_telemetry() {
    let fields = vec![
        field("email", Some("a@example.com")),
        field("name", Some("alice")),
        field("count", None),
    ];
    let a = assess_privacy_impact(&fields, "telemetry upload", false, "2024-01-01T00:00:00Z".to_string());
    assert_eq!(a.risk_score, 95);
    assert_eq!(a.risk_level, "high");
    assert!(!a.compliant);
    assert_eq!(a.pii_detected, vec!["email".to_string(), "name".to_string()]);
    assert_eq!(a.recommendations.len(), 4);
    assert_eq!(a.assessed_at, "2024-01-01T00:00:00Z");

    let calm = assess_privacy_impact(&vec![field("id", Some("x"))], "checkout", true, String::new());
    assert_eq!((calm.risk_score, calm.risk_level.as_str(), calm.compliant), (20, "low", true));

    let medium = assess_privacy_impact(&vec![field("phone", None)], "checkout", true, String::new());
    assert_eq!((medium.risk_score, medium.risk_level.as_str()), (40, "medium"));
}

#[test]
fn assessment_score_is_reported_clamped_to_one_hundred() {
    let fields: Vec<PayloadField> =
        ["email", "name", "phone", "nickname"].iter().map(|k| field(k, Some("x@y"))).collect();
    let a = assess_privacy_impact(&fields, "support", true, String::new());
    assert_eq!(a.risk_score, 100);
    assert_eq!(a.risk_level, "high");
    assert!(!a.compliant);
}

#[test]
fn minimizing_keeps_allowed_fields_in_allowed_order() {
    let keys = vec!["a".to_string(), "b".to_string(), "c".to_string()];
    let allowed = vec!["c".to_string(), "x".to_string(), "a".to_string()];
    assert_eq!(minimize_payload(&keys, &allowed), vec!["c".to_string(), "a".to_string()]);
    assert!(minimize_payload(&Vec::new(), &allowed).is_empty());
}

#[test]
fn sanitizing_redacts_personal_keys_case_insensitively() {
    let keys: Vec<String> =
        ["Email", "Phone_Number", "id", "UserName"].iter().map(|k| k.to_string()).collect();
    assert_eq!(sanitize_payload(&keys), vec![true, true, false, true]);
}

#[test]
fn privacy_report_lists_every_section() {
    let a = assess_privacy_impact(&vec![field("email", None)], "signup", true, String::new());
    let consent = ConsentRecord::new("signup", true, "t".to_string());
    assert_eq!(consent.subject, "user");
    let report = build_privacy_report(&a, &consent);
    let expected = "Privacy Report\n===============\nContext: signup\nRisk Level: medium (40 / 100)\n\
        PII Detected: email\nConsent: granted\nGDPR: baseline controls present\n\
        Retention: data retained only for the minimum necessary period\n\
        Access Control: role-based access enforced\nRecommendations:\n\
        - Minimize collected fields to the minimum necessary for the stated purpose.\n\
        - Apply anonymization or hashing before persistence or reporting.\n\
        - Record consent and retention policy for each data processing activity.\n\
        - Review access controls and retention windows for sensitive datasets.";
    assert_eq!(report, expected);
    let none = assess_privacy_impact(&Vec::new(), "x", false, String::new());
    let refused = ConsentRecord::new("x", false, String::new());
    let text = build_privacy_report(&none, &refused);
    assert!(text.contains("PII Detected: none\nConsent: not granted"));
}

#[test]
fn anonymize_twice_equals_once() {
    for input in [
        "alice@example.com user +1-555-0100",
        "aluserice and uuserser",
        "@@alicealice",
        "nothing here",
    ] {
        let once = anonymize_text(input);
        assert_eq!(anonymize_text(&once), once);
    }
}
