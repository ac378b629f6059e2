//! From a resolved spec to the context an implementer needs.
pub mod brief;

pub use brief::TaskContract;
pub mod plan;
