//! Lifecycle hook system: the hook points plugins can subscribe to, the
//! payload they receive and the result they return.

use vstd::prelude::*;
use crate::text::to_owned_string;

verus! {

/// The five core hook points plugins can subscribe to.
#[derive(Debug, Clone, Copy, PartialEq, Eq, Structural)]
pub enum LifecycleHook {
    /// Before a contract is compiled; a plugin can abort the build.
    PreBuild,
    /// After a successful build; the artifact exists at `artifact_path`.
    PostBuild,
    /// Before a contract is deployed; a plugin can abort the deployment.
    PreDeploy,
    /// After a successful deployment; the address is in `contract_id`.
    PostDeploy,
    /// Before any signing operation.
    PreSign,
}

/// The stable identifier of each hook point.
pub open spec fn hook_name(h: LifecycleHook) -> &'static str {
    match h {
        LifecycleHook::PreBuild => "pre-build",
        LifecycleHook::PostBuild => "post-build",
        LifecycleHook::PreDeploy => "pre-deploy",
        LifecycleHook::PostDeploy => "post-deploy",
        LifecycleHook::PreSign => "pre-sign",
    }
}

impl LifecycleHook {
    /// Stable string identifier used in log output and documentation.
    pub fn name(&self) -> (r: &'static str)
        ensures
            r == hook_name(*self),
    {
        match self {
            LifecycleHook::PreBuild => "pre-build",
            LifecycleHook::PostBuild => "post-build",
            LifecycleHook::PreDeploy => "pre-deploy",
            LifecycleHook::PostDeploy => "post-deploy",
            LifecycleHook::PreSign => "pre-sign",
        }
    }
}

/// Hook names are pairwise distinct.
pub proof fn law_hook_names_are_distinct(a: LifecycleHook, b: LifecycleHook)
    requires
        a != b,
    ensures
        hook_name(a)@ != hook_name(b)@,
{
    reveal_strlit("pre-build");
    reveal_strlit("post-build");
    reveal_strlit("pre-deploy");
    reveal_strlit("post-deploy");
    reveal_strlit("pre-sign");
    if hook_name(a)@.len() == hook_name(b)@.len() {
        assert(hook_name(a)@[1] != hook_name(b)@[1]);
    }
}

/// Data passed to a plugin's hook callback. Every field but the schema
/// version is optional, so later schema versions can add fields.
#[derive(Debug, Clone)]
pub struct HookPayload {
    /// Schema version of this payload.
    pub schema_version: u32,
    /// The hook that fired.
    pub hook: Option<LifecycleHook>,
    /// Network passphrase in use.
    pub network_passphrase: Option<String>,
    /// Path to the compiled Wasm artifact.
    pub artifact_path: Option<String>,
    /// Contract id after a successful deployment.
    pub contract_id: Option<String>,
    /// Source account public key of a sign operation.
    pub signer_public_key: Option<String>,
}

impl Default for HookPayload {
    fn default() -> (r: Self)
        ensures
            r.schema_version == 0,
            r.hook is None,
            r.network_passphrase is None,
            r.artifact_path is None,
            r.contract_id is None,
            r.signer_public_key is None,
    {
        HookPayload {
            schema_version: 0,
            hook: None,
            network_passphrase: None,
            artifact_path: None,
            contract_id: None,
            signer_public_key: None,
        }
    }
}

/// How a hook failure is handled.
#[derive(Debug, Clone, Copy, PartialEq, Eq, Structural)]
pub enum HookFailurePolicy {
    /// Log the failure but continue the operation.
    Warn,
    /// Abort the operation immediately.
    Block,
}

impl Default for HookFailurePolicy {
    fn default() -> (r: Self)
        ensures
            r == HookFailurePolicy::Warn,
    {
        HookFailurePolicy::Warn
    }
}

/// Result of a plugin's hook callback.
#[derive(Debug, Clone)]
pub struct HookResult {
    /// Whether the hook succeeded.
    pub ok: bool,
    /// Optional human-readable message surfaced to the user.
    pub message: Option<String>,
}

impl HookResult {
    /// A successful result without a message.
    pub fn success() -> (r: Self)
        ensures
            r.ok,
            r.message is None,
    {
        HookResult { ok: true, message: None }
    }

    /// A failed result carrying `msg`.
    pub fn failure(msg: &str) -> (r: Self)
        ensures
            !r.ok,
            r.message matches Some(m) && m@ == msg@,
    {
        HookResult { ok: false, message: Some(to_owned_string(msg)) }
    }
}


/// A plugin: its identity, load and unload callbacks, lifecycle hooks, and
/// its command.
pub trait Plugin: Send + Sync {
    fn name(&self) -> &'static str;

    fn version(&self) -> &'static str;

    fn description(&self) -> &'static str;

    fn on_load(&self) {
    }

    fn on_unload(&self) {
    }

    /// Called at each lifecycle hook point unless hooks are turned off; the
    /// default does nothing and succeeds. A failure from a pre-build,
    /// pre-deploy or pre-sign hook aborts the operation, subject to the
    /// active failure policy.
    fn on_hook(&self, payload: &HookPayload) -> HookResult {
        HookResult::success()
    }

    fn execute(&self, args: &[String]) -> Result<(), String>;
}

/// Where a plugin library registers its plugins.
pub trait PluginRegistrar {
    fn register_plugin(&mut self, plugin: Box<dyn Plugin>);
}

} // verus!
