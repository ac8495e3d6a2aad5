//! Security analysis of contract sources.

pub mod best_practices;
pub mod checks;
pub mod analysis;
pub mod remediation;
