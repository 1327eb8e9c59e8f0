//! The decision core of an offline Monte-Carlo path tracer.
//!
//! Every scalar that crosses into this crate is carried as an integer key (see
//! [`scalar`]), so that each comparison the tracer makes is a comparison of
//! integers and can be stated and proved exactly. The arithmetic that produces
//! those scalars stays with the caller, behind the traits of [`kernels`]; the
//! contracts here say what is decided given whatever that arithmetic returns.
//!
//! The modules follow the tracer from the bottom up: intervals and boxes,
//! shapes, the bounding-volume hierarchy and what its search finds, textures
//! and materials, and the integrator that follows a ray through the scene.
pub mod scalar;
pub mod interval;
pub mod data;
pub mod kernels;
pub mod bvh;
pub mod nearest;
pub mod scan;
pub mod shapes;
pub mod texture;
pub mod materials;
pub mod world;
pub mod trace;

pub use crate::trace::ray_color;
pub use crate::world::World;
