//! Limits applied to a sandboxed Wasm plugin run.

use vstd::prelude::*;
use std::time::Duration;

verus! {

/// Fuel and wall-clock budget of one plugin run.
#[derive(Debug, Clone, Copy)]
pub struct WasmSandboxPolicy {
    pub fuel: u64,
    pub timeout: Duration,
}

/// The duration of `secs` whole seconds.
pub uninterp spec fn duration_of_secs(secs: u64) -> Duration;

/// `Duration::from_secs`: the duration of `secs` whole seconds (opaque
/// here; the library hands it on to the plugin runner).
#[verifier::external_body]
fn duration_from_secs(secs: u64) -> (r: Duration)
    ensures
        r == duration_of_secs(secs),
{
    Duration::from_secs(secs)
}

impl Default for WasmSandboxPolicy {
    /// One million units of fuel and a five-second timeout.
    fn default() -> (r: Self)
        ensures
            r.fuel == 1_000_000,
            r.timeout == duration_of_secs(5),
    {
        WasmSandboxPolicy { fuel: 1_000_000, timeout: duration_from_secs(5) }
    }
}

} // verus!
