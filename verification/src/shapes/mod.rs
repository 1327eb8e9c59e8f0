//! The shapes that a scene is made of.
pub mod quad;
pub mod sphere;
