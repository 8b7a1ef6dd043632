//! Security checks for infrastructure change plans, and a monitor that
//! tracks resource configurations over time to report drift that
//! introduces or resolves issues.
//!
//! `rules` holds the rule engine and the plan walker, `monitor` the drift
//! monitor and its per-application metrics, `properties` the laws proved
//! of both.

pub mod fingerprint;
pub mod json;
pub mod keyed;
pub mod monitor;
pub mod properties;
pub mod resource_file;
pub mod rules;
pub mod text;
pub mod types;
