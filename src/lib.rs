//! Upgrade-readiness analysis for managed Kubernetes clusters: version
//! arithmetic, the checks that turn collected cluster state into findings,
//! and the data handed on to the report.
pub mod error;
pub mod text;
pub mod version;
pub mod checks;
pub mod compute;
pub mod subnets;
pub mod analysis;
pub mod playbook;
pub mod cli;
