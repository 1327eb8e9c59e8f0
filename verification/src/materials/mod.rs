//! Materials: what a surface does with the light that reaches it.
use vstd::prelude::*;
use crate::data::{Ray, RayHit, ScatterResult};
use crate::kernels::Shading;
use crate::scalar::{Scalar, ZERO};
use crate::texture::{color_of, Texture};

pub mod diffuse;
pub mod diffuse_light;
pub mod glass;
pub mod metal;

verus! {

/// What a surface is made of.
#[derive(Debug, Clone, Copy)]
pub enum Material {
    Diffuse { albedo: Texture },
    Metal { albedo: Texture, fuzz: Scalar },
    Glass { refraction_index: Scalar },
    DiffuseLight { strength: Texture },
}

/// Whether `color` is black.
pub open spec fn is_black(color: [Scalar; 3]) -> bool {
    color[0] == ZERO && color[1] == ZERO && color[2] == ZERO
}

impl Material {
    /// Whether `result` is a possible outcome of scattering `ray` at
    /// `ray_hit`: a light never scatters, the other materials follow their
    /// own laws.
    pub open spec fn scattering<S: Shading>(
        self,
        ray: Ray,
        ray_hit: RayHit,
        shading: S,
        result: Option<ScatterResult>,
    ) -> bool {
        match self {
            Material::Diffuse { albedo } => diffuse::scattering(albedo, ray_hit, shading, result),
            Material::Metal { albedo, fuzz } => metal::scattering(
                albedo,
                fuzz,
                ray,
                ray_hit,
                shading,
                result,
            ),
            Material::Glass { refraction_index } => glass::scattering(
                refraction_index,
                ray,
                ray_hit,
                shading,
                result,
            ),
            Material::DiffuseLight { .. } => result is None,
        }
    }

    /// Whether `color` is a possible emission at `uv` and `point`: the colour
    /// of its texture for a light, black for every other material.
    pub open spec fn emission<S: Shading>(
        self,
        uv: [Scalar; 2],
        point: [Scalar; 3],
        shading: S,
        color: [Scalar; 3],
    ) -> bool {
        match self {
            Material::DiffuseLight { strength } => color_of(strength, uv, point, shading, color),
            _ => is_black(color),
        }
    }

    /// The ray that leaves the surface at `ray_hit` where `ray` arrived, with
    /// the colour that the surface lets through, or none where the light is
    /// absorbed.
    pub fn scatter<S: Shading>(&self, ray: Ray, ray_hit: &RayHit, shading: &S) -> (result: Option<
        ScatterResult,
    >)
        ensures
            self.scattering(ray, *ray_hit, *shading, result),
    {
        match self {
            Material::Diffuse { albedo } => diffuse::scatter(albedo, ray_hit, shading),
            Material::Metal { albedo, fuzz } => metal::scatter(albedo, *fuzz, ray, ray_hit, shading),
            Material::Glass { refraction_index } => glass::scatter(
                *refraction_index,
                ray,
                ray_hit,
                shading,
            ),
            Material::DiffuseLight { .. } => None,
        }
    }

    /// The light that the surface gives off at `uv` and `point`.
    pub fn emit<S: Shading>(&self, uv: [Scalar; 2], point: [Scalar; 3], shading: &S) -> (color: [
        Scalar;
        3
    ])
        ensures
            self.emission(uv, point, *shading, color),
    {
        let none: [Scalar; 3] = [ZERO, ZERO, ZERO];
        match self {
            Material::Diffuse { .. } => none,
            Material::Metal { .. } => none,
            Material::Glass { .. } => none,
            Material::DiffuseLight { strength } => diffuse_light::emit(strength, uv, point, shading),
        }
    }
}

/// No material both scatters and emits: where a material scatters, what it
/// emits is black.
pub proof fn lemma_scatterers_are_dark<S: Shading>(
    material: Material,
    ray: Ray,
    ray_hit: RayHit,
    shading: S,
    result: Option<ScatterResult>,
    color: [Scalar; 3],
)
    requires
        material.scattering(ray, ray_hit, shading, result),
        result is Some,
        material.emission(ray_hit.uv, ray_hit.point, shading, color),
    ensures
        is_black(color),
{
}

} // verus!
