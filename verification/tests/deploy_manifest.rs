use starforge::deploy_orchestrator::manifest::{render_dag, resolve_order, DeployManifest, ManifestContract};

fn contract(id: &str, deps: &[&str]) -> ManifestContract {
    ManifestContract {
        id: id.to_string(),
        wasm: format!("{id}.wasm"),
        depends_on: deps.iter().map(|d| d.to_string()).collect(),
        init_args: None,
    }
}

fn manifest(contracts: Vec<ManifestContract>) -> DeployManifest {
    DeployManifest { name: "demo".into(), network: "testnet".into(), wallet: None, contracts }
}

#[test]
fn order_puts_dependencies_first_and_roots_by_id() {
    let m = manifest(vec![
        contract("token", &["registry"]),
        contract("registry", &[]),
        contract("amm", &["token", "registry"]),
        contract("admin", &[]),
    ]);
    let order = resolve_order(&m).unwrap();
    assert_eq!(order, vec!["admin", "registry", "token", "amm"]);
}

#[test]
fn released_contracts_follow_manifest_order() {
    let m = manifest(vec![
        contract("c", &["a"]),
        contract("b", &["a"]),
        contract("a", &[]),
    ]);
    assert_eq!(resolve_order(&m).unwrap(), vec!["a", "c", "b"]);
}

#[test]
fn order_errors_name_the_problem() {
    let m = manifest(vec![contract("a", &[]), contract("b", &["ghost"])]);
    assert_eq!(resolve_order(&m).unwrap_err(), "Contract 'b' depends on unknown contract 'ghost'");
    let m = manifest(vec![contract("a", &["a"])]);
    assert_eq!(resolve_order(&m).unwrap_err(), "Contract 'a' cannot depend on itself");
    let m = manifest(vec![contract("a", &["b"]), contract("b", &["a"])]);
    assert_eq!(resolve_order(&m).unwrap_err(), "Circular dependency detected in deployment manifest");
    let m = manifest(vec![contract("a", &[]), contract("a", &[])]);
    assert_eq!(resolve_order(&m).unwrap_err(), "Circular dependency detected in deployment manifest");
}

#[test]
fn dag_lists_order_and_mermaid_edges() {
    let m = manifest(vec![contract("token", &["registry"]), contract("registry", &[])]);
    let text = render_dag(&m).unwrap();
    assert_eq!(
        text,
        "Deployment: demo\nNetwork: testnet\n\nDependency Graph (execution order):\n  1. registry ← depends on [none]\n  2. token ← depends on [registry]\n\nMermaid diagram:\n```mermaid\ngraph TD\n    registry --> token\n    START --> registry\n```"
    );
    let bad = manifest(vec![contract("x", &["y"])]);
    assert!(render_dag(&bad).is_err());
}
