//! Metering and enforcement core for a single-node proxy fleet: converts
//! kernel or log traffic readings into per-tenant deltas, applies them to
//! persisted quota counters, disables tenants that exceed their quota, and
//! synthesizes the proxy engine's wire-format configuration.

pub mod chains;
pub mod envcfg;
pub mod json;
pub mod keygen;
pub mod ledger;
pub mod logline;
pub mod model;
pub mod reconcile;
pub mod rules;
pub mod synth;
pub mod text;
pub mod tick;
