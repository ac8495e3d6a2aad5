# starforge

A toolkit for Soroban smart contracts on Stellar, written in Verus: the
library's behaviour is stated in `requires` / `ensures` contracts and proved.

## Layout

- `src/` — the verified library.
  - `gas_profiler/` — Wasm decoding and static profiling, the fee model,
    measured invocations (`measure.rs`) and the suggestion rules
    (`suggest.rs`, `measured.rs`).
  - `security/` — the best-practice rule engine, findings and remediation
    tracking.
  - `sep10.rs` — SEP-10 challenge validation and signing.
  - `simulation_resources.rs` — parsing `simulateTransaction` responses and
    fee planning.
  - `deploy_orchestrator/` — deployment plans, waves and the step function
    that drives a deployment.
  - `event_monitoring.rs` — event routing, alert rules and statistics.
  - `privacy.rs`, `perf_regression.rs`, `deployment_optimizer.rs`,
    `stellar_cli_identity.rs` and smaller modules.
  - `text.rs` — character-level text helpers shared by the rest.
- `tests/` — tests of the library.
- `app/` — the parts around the library that cannot be verified: files,
  network, process environment, serde formats and floating-point
  statistics.

Calls into other crates (XDR, strkeys, ed25519, base64, JSON, TOML, SHA-256,
chrono) stand behind small trusted functions whose contracts say what those
crates document; every proof that uses them rests on those contracts.
