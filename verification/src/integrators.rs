//! The three estimators of the light that reaches a pixel, and the plan of a
//! render.
//!
//! An estimator is told what a camera ray hit and answers what light the ray
//! brings back: a colour, or the instruction to follow the path further.
//! Casting the ray, and averaging the samples of a pixel, is the caller's
//! floating-point work.
use crate::material::Material;
use crate::scene::{shade_point, spec_shade_point, Radiance};
use crate::tiles::{allocatable, GridError, Layout, Tile, TileGrid, TILE_SIZE};
use vstd::prelude::*;

verus! {

/// Follows light through the scene from bounce to bounce.
#[derive(Clone, Copy, Debug, PartialEq, Eq, Structural)]
pub struct RandomWalkIntegrator {
    depth: usize,
    iterations: usize,
    fresnel: bool,
}

/// Shows the base colour of what a pixel sees, unshaded.
#[derive(Clone, Copy, Debug, PartialEq, Eq, Structural)]
pub struct AlbedoIntegrator {
    iterations: usize,
}

/// Shows the surface normal of what a pixel sees as a colour.
#[derive(Clone, Copy, Debug, PartialEq, Eq, Structural)]
pub struct NormalIntegrator {
    iterations: usize,
}

/// One of the three estimators.
#[derive(Clone, Copy, Debug, PartialEq, Eq, Structural)]
pub enum Integrator {
    RandomWalkIntegrator(RandomWalkIntegrator),
    AlbedoIntegrator(AlbedoIntegrator),
    NormalIntegrator(NormalIntegrator),
}

impl RandomWalkIntegrator {
    /// An estimator that follows each path for at most `depth` bounces and
    /// takes `iterations` samples for a pixel.  Mirrors are shaded without
    /// the Fresnel adjustment.
    pub fn new(depth: usize, iterations: usize) -> (integrator: Self)
        ensures
            integrator.spec_depth() == depth,
            integrator.spec_iterations() == iterations,
            !integrator.spec_fresnel(),
    {
        RandomWalkIntegrator { depth, iterations, fresnel: false }
    }

    /// The same estimator with the Fresnel adjustment of mirrors switched
    /// on or off.
    pub fn with_fresnel(self, fresnel: bool) -> (integrator: Self)
        ensures
            integrator.spec_depth() == self.spec_depth(),
            integrator.spec_iterations() == self.spec_iterations(),
            integrator.spec_fresnel() == fresnel,
    {
        RandomWalkIntegrator { depth: self.depth, iterations: self.iterations, fresnel }
    }

    pub closed spec fn spec_depth(self) -> usize {
        self.depth
    }

    pub closed spec fn spec_iterations(self) -> usize {
        self.iterations
    }

    pub closed spec fn spec_fresnel(self) -> bool {
        self.fresnel
    }

    /// Whether mirrors are shaded with the Fresnel adjustment.
    pub fn fresnel(&self) -> (on: bool)
        ensures
            on == self.spec_fresnel(),
    {
        self.fresnel
    }
}

impl AlbedoIntegrator {
    /// An estimator that takes `iterations` samples for a pixel.
    pub fn new(iterations: usize) -> (integrator: Self)
        ensures
            integrator.spec_iterations() == iterations,
    {
        AlbedoIntegrator { iterations }
    }

    pub closed spec fn spec_iterations(self) -> usize {
        self.iterations
    }
}

impl NormalIntegrator {
    /// An estimator that takes `iterations` samples for a pixel.
    pub fn new(iterations: usize) -> (integrator: Self)
        ensures
            integrator.spec_iterations() == iterations,
    {
        NormalIntegrator { iterations }
    }

    pub closed spec fn spec_iterations(self) -> usize {
        self.iterations
    }
}

impl Integrator {
    pub open spec fn spec_max_depth(self) -> usize {
        match self {
            Integrator::RandomWalkIntegrator(walk) => walk.spec_depth(),
            Integrator::AlbedoIntegrator(_) => 0,
            Integrator::NormalIntegrator(_) => 0,
        }
    }

    pub open spec fn spec_total_samples(self) -> usize {
        match self {
            Integrator::RandomWalkIntegrator(walk) => walk.spec_iterations(),
            Integrator::AlbedoIntegrator(albedo) => albedo.spec_iterations(),
            Integrator::NormalIntegrator(normal) => normal.spec_iterations(),
        }
    }

    /// What a ray that hit `hit` brings back, with `depth` bounces left.
    pub open spec fn spec_incident_light<C: Copy>(
        self,
        hit: Option<Material<C>>,
        depth: int,
    ) -> Radiance<C> {
        match hit {
            None => Radiance::Black,
            Some(material) => match self {
                Integrator::RandomWalkIntegrator(walk) => spec_shade_point(
                    material,
                    depth,
                    walk.spec_fresnel(),
                ),
                Integrator::AlbedoIntegrator(_) => match material.spec_base_color() {
                    Some(color) => Radiance::Constant(color),
                    None => Radiance::Black,
                },
                Integrator::NormalIntegrator(_) => Radiance::Normal,
            },
        }
    }

    /// The number of bounces with which a camera ray sets out.  The two
    /// estimators that only look at the first hit need none.
    pub fn max_depth(&self) -> (depth: usize)
        ensures
            depth == self.spec_max_depth(),
    {
        match self {
            Integrator::RandomWalkIntegrator(walk) => walk.depth,
            Integrator::AlbedoIntegrator(_) => 0,
            Integrator::NormalIntegrator(_) => 0,
        }
    }

    /// The number of samples that are averaged for a pixel.
    pub fn total_samples(&self) -> (samples: usize)
        ensures
            samples == self.spec_total_samples(),
    {
        match self {
            Integrator::RandomWalkIntegrator(walk) => walk.iterations,
            Integrator::AlbedoIntegrator(albedo) => albedo.iterations,
            Integrator::NormalIntegrator(normal) => normal.iterations,
        }
    }

    /// What a ray brings back that hit a surface of material `hit`, or
    /// nothing where `hit` is `None`, with `depth` bounces left.
    ///
    /// A ray that hits nothing brings back nothing.  Otherwise the random
    /// walk shades the point that was hit, which gives nothing when no
    /// bounce is left; the albedo estimator gives the base colour of the
    /// material, or nothing if it has none; the normal estimator gives the
    /// colour that pictures the normal.
    pub fn incident_light<C: Copy>(&self, hit: Option<&Material<C>>, depth: usize) -> (light:
        Radiance<C>)
        ensures
            light == self.spec_incident_light(
                match hit {
                    Some(material) => Some(*material),
                    None => None,
                },
                depth as int,
            ),
            light.continues() ==> light.depth_left() == depth - 1,
    {
        let material = match hit {
            Some(material) => material,
            None => return Radiance::Black,
        };
        match self {
            Integrator::RandomWalkIntegrator(walk) => shade_point(material, depth, walk.fresnel),
            Integrator::AlbedoIntegrator(_) => match material.base_color() {
                Some(color) => Radiance::Constant(color),
                None => Radiance::Black,
            },
            Integrator::NormalIntegrator(_) => Radiance::Normal,
        }
    }
}

/// The tasks of rendering an image of `width` by `height` pixels: its tiles
/// of side [`TILE_SIZE`], in the order in which they are queued.
///
/// Fails when the image has more pixels than can be listed in memory.
pub fn render_tiles(width: u32, height: u32) -> (plan: Result<Vec<Tile>, GridError>)
    ensures
        match plan {
            Ok(tiles) => {
                let layout = Layout {
                    width: width as int,
                    height: height as int,
                    tile_size: TILE_SIZE as int,
                };
                &&& allocatable(width * height)
                &&& tiles@.len() == layout.count()
                &&& forall|k: int|
                    0 <= k < tiles@.len() ==> (#[trigger] tiles@[k])@ == layout.scheduled(k)
            },
            Err(e) => e == GridError::TooLarge && !allocatable(width * height),
        },
{
    match TileGrid::new(width, height, TILE_SIZE) {
        Ok(grid) => Ok(grid.tiles()),
        Err(e) => Err(e),
    }
}

} // verus!
