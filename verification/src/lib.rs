//! Scene-graph transform propagation and the small engine services around it.
//!
//! The heart of the crate is [`transform::system::TransformSystem`], which
//! decides, for one pass over a scene, which global transforms have to be
//! recomputed, in which order, and from which source.
pub mod console;
pub mod engine_system;
pub mod plugin;
pub mod timing;
pub mod transform;
pub mod window;
