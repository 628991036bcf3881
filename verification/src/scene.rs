//! What a scene decides: which hit a ray keeps, and how a light path goes on
//! from a hit.
//!
//! Intersecting a ray with a shape and drawing a new direction are
//! floating-point work of the caller.  The caller hands in what it found, the
//! distance of each hit by rank and the material that was hit, and carries
//! out what this module answers.
use crate::geometry::common::Scalar;
use crate::material::{Material, Type};
use vstd::prelude::*;

verus! {

/// What a light path brings back from one point, and how it goes on.
#[derive(Clone, Copy, Debug)]
pub enum Radiance<C> {
    /// Nothing: the path ends without light.
    Black,
    /// This colour as it is; the path ends.
    Constant(C),
    /// The colour that pictures the surface normal, each of its coordinates
    /// brought from `[-1, 1]` to `[0, 1]`; the path ends.
    Normal,
    /// What a further ray brings back, multiplied by `albedo`.  The ray
    /// leaves in a direction drawn around the normal with a density
    /// proportional to the cosine, and has `depth` bounces left.
    Diffuse { albedo: C, depth: usize },
    /// What a further ray brings back, multiplied by `tint`.  The ray leaves
    /// in the mirrored direction and has `depth` bounces left; with
    /// `fresnel` the tint is first adjusted by Schlick's approximation.
    Mirror { tint: C, depth: usize, fresnel: bool },
}

impl<C> Radiance<C> {
    /// The path goes on with a further ray.
    pub open spec fn continues(self) -> bool {
        self is Diffuse || self is Mirror
    }

    /// The bounces that the further ray has left.
    pub open spec fn depth_left(self) -> int {
        match self {
            Radiance::Diffuse { depth, .. } => depth as int,
            Radiance::Mirror { depth, .. } => depth as int,
            _ => 0,
        }
    }
}

/// How the light at a point of a surface is found, by the material of the
/// surface, with `iteraciones` bounces left.
pub open spec fn spec_shade_point<C>(material: Material<C>, iteraciones: int, fresnel: bool) -> Radiance<C> {
    if iteraciones <= 0 {
        Radiance::Black
    } else {
        match (material.tipo, material.emitted_color, material.ambient_color, material.specular_color) {
            (Type::Emitter, Some(color), _, _) => Radiance::Constant(color),
            (Type::Lambertian, _, Some(albedo), _) => Radiance::Diffuse {
                albedo,
                depth: (iteraciones - 1) as usize,
            },
            (Type::Specular, _, _, Some(tint)) => Radiance::Mirror {
                tint,
                depth: (iteraciones - 1) as usize,
                fresnel,
            },
            _ => Radiance::Black,
        }
    }
}

/// How the light that a ray brings back is found, by what the ray hit.
pub open spec fn spec_trace_ray<C>(hit: Option<Material<C>>, iteraciones: int, fresnel: bool) -> Radiance<C> {
    match hit {
        Some(material) => spec_shade_point(material, iteraciones, fresnel),
        None => Radiance::Black,
    }
}

/// The light at a point of a surface, by the material of the surface.
///
/// With no bounce left there is none.  An emitter gives its emitted colour
/// and ends the path.  A diffuse surface sends the path on around the normal
/// and multiplies what comes back by its ambient colour; a mirror sends it
/// on in the mirrored direction and multiplies by its specular colour,
/// adjusted by Schlick's approximation where `fresnel` asks for it.  Either
/// way the further ray has one bounce less.  A material that lacks the
/// colour of its own channel gives nothing.
pub fn shade_point<C: Copy>(material: &Material<C>, iteraciones: usize, fresnel: bool) -> (light:
    Radiance<C>)
    ensures
        light == spec_shade_point(*material, iteraciones as int, fresnel),
        light.continues() ==> light.depth_left() == iteraciones - 1,
        !(light is Normal),
{
    if iteraciones == 0 {
        return Radiance::Black;
    }
    match material.active_color() {
        None => Radiance::Black,
        Some(color) => match material.tipo {
            Type::Emitter => Radiance::Constant(color),
            Type::Lambertian => Radiance::Diffuse { albedo: color, depth: iteraciones - 1 },
            Type::Specular => Radiance::Mirror { tint: color, depth: iteraciones - 1, fresnel },
        },
    }
}

/// The light that a ray brings back: nothing when it has no bounce left or
/// hits nothing, and else the light at the point that it hits.
pub fn trace_ray<C: Copy>(hit: Option<&Material<C>>, iteraciones: usize, fresnel: bool) -> (light:
    Radiance<C>)
    ensures
        light == spec_trace_ray(
            match hit {
                Some(material) => Some(*material),
                None => None,
            },
            iteraciones as int,
            fresnel,
        ),
        light.continues() ==> light.depth_left() == iteraciones - 1,
{
    if iteraciones == 0 {
        return Radiance::Black;
    }
    match hit {
        Some(material) => shade_point(material, iteraciones, fresnel),
        None => Radiance::Black,
    }
}

/// A light path comes to an end: a ray with `iteraciones` bounces left is
/// followed by at most `iteraciones` further rays, whatever they hit.
/// `hits[i]` is what the `i`-th ray of the path hits.
pub proof fn lemma_path_ends<C>(hits: Seq<Option<Material<C>>>, iteraciones: nat, fresnel: bool)
    requires
        hits.len() > iteraciones,
    ensures
        exists|i: int|
            0 <= i <= iteraciones && !(#[trigger] spec_trace_ray(
                hits[i],
                iteraciones - i,
                fresnel,
            )).continues(),
{
    let last = iteraciones as int;
    assert(!spec_trace_ray(hits[last], iteraciones - last, fresnel).continues());
}

/// `i` is the place of the nearest hit in `hits`: a hit at the least
/// distance, and the first of those at that distance.
pub open spec fn is_nearest(hits: Seq<Option<Scalar>>, i: int) -> bool {
    &&& 0 <= i < hits.len()
    &&& hits[i] is Some
    &&& forall|j: int| 0 <= j < hits.len() && hits[j] is Some ==> hits[i]->0 <= (#[trigger] hits[j])->0
    &&& forall|j: int| 0 <= j < i && hits[j] is Some ==> hits[i]->0 < (#[trigger] hits[j])->0
}

/// `i` is the place of the first hit in `hits`.
pub open spec fn is_first(hits: Seq<Option<Scalar>>, i: int) -> bool {
    &&& 0 <= i < hits.len()
    &&& hits[i] is Some
    &&& forall|j: int| 0 <= j < i ==> (#[trigger] hits[j]) is None
}

/// Of the hits of one ray with the shapes of a scene, `hits[i]` being the
/// distance along the ray at which it meets shape `i`, the place of the
/// nearest: the least distance wins, and of several hits at that distance
/// the first.  `None` when the ray meets no shape.
pub fn nearest_hit(hits: &Vec<Option<Scalar>>) -> (nearest: Option<usize>)
    ensures
        match nearest {
            Some(i) => is_nearest(hits@, i as int),
            None => forall|j: int| 0 <= j < hits@.len() ==> (#[trigger] hits@[j]) is None,
        },
{
    let mut menor: Option<(usize, Scalar)> = None;
    let mut k: usize = 0;
    while k < hits.len()
        invariant
            k <= hits@.len(),
            match menor {
                Some((i, t)) => i < k && hits@[i as int] == Some(t) && is_nearest(
                    hits@.take(k as int),
                    i as int,
                ),
                None => forall|j: int| 0 <= j < k ==> (#[trigger] hits@[j]) is None,
            },
        decreases hits@.len() - k,
    {
        let ghost before = hits@.take(k as int);
        let ghost after = hits@.take(k + 1);
        proof {
            assert forall|j: int| 0 <= j < k implies before[j] == hits@[j] && after[j] == hits@[j] by {}
            assert(after[k as int] == hits@[k as int]);
        }
        match hits[k] {
            Some(actual) => {
                match menor {
                    Some((_, t)) => {
                        if actual < t {
                            menor = Some((k, actual));
                        }
                    },
                    None => {
                        menor = Some((k, actual));
                    },
                }
            },
            None => {},
        }
        k += 1;
    }
    proof {
        assert(hits@.take(k as int) =~= hits@);
    }
    match menor {
        Some((i, _)) => Some(i),
        None => None,
    }
}

/// The place of the first hit in `hits`, `None` when there is none.
pub fn first_hit(hits: &Vec<Option<Scalar>>) -> (first: Option<usize>)
    ensures
        match first {
            Some(i) => is_first(hits@, i as int),
            None => forall|j: int| 0 <= j < hits@.len() ==> (#[trigger] hits@[j]) is None,
        },
{
    let mut k: usize = 0;
    while k < hits.len()
        invariant
            k <= hits@.len(),
            forall|j: int| 0 <= j < k ==> (#[trigger] hits@[j]) is None,
        decreases hits@.len() - k,
    {
        if hits[k].is_some() {
            return Some(k);
        }
        k += 1;
    }
    None
}

/// Which of the hits of a group of shapes the group reports.
#[derive(Clone, Copy, Debug, PartialEq, Eq, Structural)]
pub enum Selection {
    /// The nearest hit.  Right for every group.
    Nearest,
    /// The hit of the first member that is hit.  Cheaper, and right only
    /// where no two members of the group overlap along a ray.
    First,
}

/// The place of the hit that a group of shapes reports, by the rule that
/// the group follows; `None` when the ray meets none of its members.
pub fn select_hit(hits: &Vec<Option<Scalar>>, rule: Selection) -> (chosen: Option<usize>)
    ensures
        match chosen {
            Some(i) => match rule {
                Selection::Nearest => is_nearest(hits@, i as int),
                Selection::First => is_first(hits@, i as int),
            },
            None => forall|j: int| 0 <= j < hits@.len() ==> (#[trigger] hits@[j]) is None,
        },
{
    match rule {
        Selection::Nearest => nearest_hit(hits),
        Selection::First => first_hit(hits),
    }
}

/// At most one place is that of the nearest hit.
pub proof fn lemma_nearest_unique(hits: Seq<Option<Scalar>>, i: int, j: int)
    requires
        is_nearest(hits, i),
        is_nearest(hits, j),
    ensures
        i == j,
{
    if i < j {
        assert(hits[j]->0 < hits[i]->0);
    } else if j < i {
        assert(hits[i]->0 < hits[j]->0);
    }
}

} // verus!
