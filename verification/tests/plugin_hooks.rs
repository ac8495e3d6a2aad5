use starforge::plugins::interface::{HookFailurePolicy, HookPayload, HookResult, LifecycleHook};
use starforge::plugins::sandbox::WasmSandboxPolicy;

#[test]
fn all_five_hook_points_have_stable_names() {
    assert_eq!(LifecycleHook::PreBuild.name(), "pre-build");
    assert_eq!(LifecycleHook::PostBuild.name(), "post-build");
    assert_eq!(LifecycleHook::PreDeploy.name(), "pre-deploy");
    assert_eq!(LifecycleHook::PostDeploy.name(), "post-deploy");
    assert_eq!(LifecycleHook::PreSign.name(), "pre-sign");
}

#[test]
fn hook_result_success_is_ok() {
    let r = HookResult::success();
    assert!(r.ok);
    assert!(r.message.is_none());
}

#[test]
fn hook_result_failure_carries_message() {
    let r = HookResult::failure("policy violation");
    assert!(!r.ok);
    assert_eq!(r.message.as_deref(), Some("policy violation"));
}

#[test]
fn default_hook_failure_policy_is_warn() {
    assert_eq!(HookFailurePolicy::default(), HookFailurePolicy::Warn);
}

#[test]
fn payload_default_has_schema_version_zero() {
    let p = HookPayload::default();
    assert_eq!(p.schema_version, 0);
    assert!(p.hook.is_none());
}

#[test]
fn payload_fields_set_correctly() {
    let p = HookPayload {
        schema_version: 1,
        hook: Some(LifecycleHook::PostDeploy),
        contract_id: Some("CABC123".into()),
        ..Default::default()
    };
    assert_eq!(p.schema_version, 1);
    assert_eq!(p.hook, Some(LifecycleHook::PostDeploy));
    assert_eq!(p.contract_id.as_deref(), Some("CABC123"));
}

#[test]
fn hook_names_are_distinct() {
    let all = [
        LifecycleHook::PreBuild,
        LifecycleHook::PostBuild,
        LifecycleHook::PreDeploy,
        LifecycleHook::PostDeploy,
        LifecycleHook::PreSign,
    ];
    for (i, a) in all.iter().enumerate() {
        for b in all.iter().skip(i + 1) {
            assert_ne!(a.name(), b.name());
        }
    }
}

#[test]
fn sandbox_policy_defaults() {
    let p = WasmSandboxPolicy::default();
    assert_eq!(p.fuel, 1_000_000);
    assert_eq!(p.timeout, std::time::Duration::from_secs(5));
}
