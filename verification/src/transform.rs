//! Entities, the structural scene table, the change tracker and the propagator.
pub mod bits;
pub mod bundle;
pub mod entity;
pub mod laws;
pub mod plan;
pub mod scene;
pub mod system;
