//! Contract-driven specification tooling: the spec model, plan context,
//! report rendering and the code-quality limits.
pub mod text;
pub mod spec_core;
pub mod spec_gateway;
pub mod spec_report;
pub mod spec_verify;
