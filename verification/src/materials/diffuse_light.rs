//! Lights: surfaces that give off light of their own.
use vstd::prelude::*;
use crate::kernels::Shading;
use crate::scalar::Scalar;
use crate::texture::{color_of, Texture};

verus! {

/// What a light gives off at a point of its surface: the colour of its
/// texture there.
pub fn emit<S: Shading>(
    strength: &Texture,
    uv: [Scalar; 2],
    point: [Scalar; 3],
    shading: &S,
) -> (color: [Scalar; 3])
    ensures
        color_of(*strength, uv, point, *shading, color),
{
    strength.color_at(uv, point, shading)
}

} // verus!
