//! Starforge: Soroban developer tooling logic — gas profiling, fee planning,
//! deployment ordering, event alerting and configuration parsing.

pub mod text;
pub mod gas_profiler;
pub mod deploy_orchestrator;
pub mod plugins;
pub mod privacy;
pub mod simulation_resources;
pub mod simulation_report;
pub mod deployment_optimizer;
pub mod event_monitoring;
pub mod perf_regression;
pub mod security;
pub mod sep10;
pub mod client;
pub mod commands;
pub mod output;
pub mod database;
pub mod stellar_cli_identity;
