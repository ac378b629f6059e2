//! Verifiers that judge an implementation against its spec.
pub mod complexity;
