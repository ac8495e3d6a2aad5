use starforge::stellar_cli_identity::{
    identity_candidates, identity_not_found, parse_identity, search_dirs, validate_identity_name,
    StellarCliKey, LEDGER_IDENTITY, NOT_TOML, NO_KEY_MATERIAL, SECURE_STORE,
};

#[test]
fn parses_secret_key_identity() {
    let key = parse_identity("secret_key = \"SABC\"\n").unwrap();
    assert!(matches!(key, StellarCliKey::SecretKey(s) if s.as_str() == "SABC"));
}

#[test]
fn parses_seed_phrase_identity() {
    let key = parse_identity("seed_phrase = \" abandon ability \"\n").unwrap();
    assert!(matches!(key, StellarCliKey::SeedPhrase(s) if s.as_str() == "abandon ability"));
}

#[test]
fn rejects_public_key_only_identity() {
    let err = parse_identity("public_key = \"GABC\"\n").unwrap_err();
    assert!(err.to_string().contains("only stores a public key"));
}

#[test]
fn rejects_unknown_identity_without_leaking_contents() {
    let err = parse_identity("secret = \"SSECRETVALUE\"\n").unwrap_err();
    assert!(!format!("{err:#}").contains("SSECRETVALUE"));
    let err = parse_identity("not toml = = SSECRETVALUE").unwrap_err();
    assert!(!format!("{err:#}").contains("SSECRETVALUE"));
}

#[test]
fn rejects_path_traversal_names() {
    for bad in ["../evil", "a/b", "", "a b"] {
        assert!(identity_candidates(bad, &Vec::new()).is_err(), "{bad} should be rejected");
    }
}

#[test]
fn stellar_config_home_replaces_global_dirs() {
    let dirs = search_dirs(Some("/proj"), Some("/home/u"), Some("/custom"), Some("/xdg"));
    assert_eq!(
        dirs,
        vec![
            "/proj/.stellar".to_string(),
            "/custom".to_string(),
            "/proj/.soroban".to_string(),
            "/home/u/.config/soroban".to_string(),
        ]
    );
}

#[test]
fn default_global_dirs_include_xdg_and_home() {
    let dirs = search_dirs(None, Some("/home/u"), None, Some("/xdg"));
    assert_eq!(
        dirs,
        vec![
            "/xdg/stellar".to_string(),
            "/home/u/.config/stellar".to_string(),
            "/home/u/.config/soroban".to_string(),
        ]
    );
}

#[test]
fn equal_neighbouring_dirs_are_listed_once() {
    let dirs = search_dirs(Some("/p"), None, Some("/p/.stellar"), None);
    assert_eq!(dirs, vec!["/p/.stellar".to_string(), "/p/.soroban".to_string()]);
}

#[test]
fn missing_identity_lists_searched_dirs() {
    let dirs = vec!["/tmp/a".to_string(), "/tmp/b/".to_string()];
    let message = identity_not_found("nobody", &dirs);
    assert_eq!(
        message,
        "stellar-cli identity 'nobody' not found. Searched:\n  /tmp/a/identity\n  /tmp/b/identity\n\
         List identities with `stellar keys ls`, or set STELLAR_CONFIG_HOME."
    );
}

#[test]
fn candidates_follow_directory_order() {
    let dirs = vec!["/local".to_string(), "/global".to_string()];
    assert_eq!(
        identity_candidates("alice", &dirs).unwrap(),
        vec!["/local/identity/alice.toml".to_string(), "/global/identity/alice.toml".to_string()]
    );
    assert_eq!(
        validate_identity_name("a b").unwrap_err(),
        "Invalid stellar-cli identity name 'a b': use letters, digits, '-' or '_'"
    );
    assert!(validate_identity_name("Alice_01-x").is_ok());
}

#[test]
fn identity_errors_name_the_kind_of_identity() {
    assert_eq!(parse_identity("x = = 1").unwrap_err(), NOT_TOML);
    assert_eq!(parse_identity("secure_store_entry = \"x\"\n").unwrap_err(), SECURE_STORE);
    assert_eq!(parse_identity("ledger_hd_path = 1\n").unwrap_err(), LEDGER_IDENTITY);
    assert_eq!(parse_identity("other = 1\n").unwrap_err(), NO_KEY_MATERIAL);
    assert_eq!(parse_identity("secret_key = 7\n").unwrap_err(), "'secret_key' must be a string");
    let key = parse_identity("seed_phrase = \"w\"\nsecret_key = \"SKEY\"\n").unwrap();
    assert!(matches!(key, StellarCliKey::SecretKey(s) if s == "SKEY"));
}
