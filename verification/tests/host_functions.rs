use starforge::gas_profiler::host_fns::{categorize, host_function_name, HostCategory, HOST_FUNCTIONS};

#[test]
fn resolves_ledger_functions() {
    assert_eq!(host_function_name("l", "1"), Some("get_contract_data"));
    assert_eq!(host_function_name("l", "_"), Some("put_contract_data"));
    assert_eq!(categorize("l", "1"), HostCategory::StorageRead);
    assert_eq!(categorize("l", "0"), HostCategory::StorageRead);
    assert_eq!(categorize("l", "_"), HostCategory::StorageWrite);
    assert_eq!(categorize("l", "2"), HostCategory::StorageWrite);
    assert_eq!(categorize("l", "7"), HostCategory::StorageTtl);
    assert_eq!(categorize("l", "3"), HostCategory::Deploy);
}

#[test]
fn resolves_other_modules() {
    assert_eq!(categorize("d", "_"), HostCategory::CrossContract);
    assert_eq!(categorize("x", "1"), HostCategory::Event);
    assert_eq!(categorize("x", "_"), HostCategory::Log);
    assert_eq!(categorize("a", "0"), HostCategory::Auth);
    assert_eq!(categorize("c", "0"), HostCategory::Crypto);
    assert_eq!(categorize("b", "0"), HostCategory::Serialization);
    assert_eq!(categorize("v", "6"), HostCategory::Object);
}

#[test]
fn unknown_imports_are_flagged() {
    assert_eq!(categorize("env", "abort"), HostCategory::Unknown);
    assert_eq!(categorize("l", "zz"), HostCategory::Unknown);
}

#[test]
fn table_has_no_duplicate_keys() {
    let mut seen = std::collections::HashSet::new();
    for (m, e, _) in HOST_FUNCTIONS.iter() {
        assert!(seen.insert((*m, *e)), "duplicate host fn {}.{}", m, e);
    }
    assert!(HOST_FUNCTIONS.len() > 150);
}

#[test]
fn unknown_field_in_known_module_has_no_name() {
    assert_eq!(host_function_name("l", "zz"), None);
    assert_eq!(host_function_name("env", "abort"), None);
}

#[test]
fn category_weights_and_labels() {
    assert!(HostCategory::CrossContract.is_expensive());
    assert!(!HostCategory::Object.is_expensive());
    assert!(HostCategory::Deploy.weight() > HostCategory::Object.weight());
    assert!(!HostCategory::StorageRead.label().is_empty());
}
