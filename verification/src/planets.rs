use vstd::prelude::*;

verus! {

/// Names the shading of the star: a bright, turbulent surface.
#[derive(Clone, Copy, Debug)]
pub struct SunShader;

/// Names the shading of a rocky body with displaced terrain.
#[derive(Clone, Copy, Debug)]
pub struct RockyPlanetShader;

/// Names the shading of a banded gas giant.
#[derive(Clone, Copy, Debug)]
pub struct GasPlanetShader;

/// Names the shading of a faceted crystal body.
#[derive(Clone, Copy, Debug)]
pub struct CrystalPlanetShader;

/// Names the shading of a body wrapped in nebula clouds.
#[derive(Clone, Copy, Debug)]
pub struct NebulaPlanetShader;

/// Names the shading of a polished metallic body.
#[derive(Clone, Copy, Debug)]
pub struct MetallicPlanetShader;

} // verus!
