use super::common::Scalar;
use vstd::prelude::*;

verus! {

/// Rank of the number one.
pub const ONE: Scalar = 0x3ff0_0000_0000_0000;

/// Rank of the threshold `1e-10` under which a determinant counts as zero.
pub const DET_EPSILON: Scalar = 0x3ddb_7cdf_d9d7_bdbb;

/// Whether a ray that is valid up to the parameter `max_t` has a point at
/// the parameter `t`: it has one from its origin, at zero, up to `max_t`,
/// and none before or beyond.
pub fn reaches(t: Scalar, max_t: Scalar) -> (valid: bool)
    ensures
        valid == (0 <= t <= max_t),
{
    !(t < 0 || t > max_t)
}

/// A triangle with corners `V0, V1, V2` and a ray `O + t D` meet where
/// `O + t D = V0 + u (V1 - V0) + v (V2 - V0)`.  With `det` the determinant
/// of that system, the solution counts as a hit when the system is not
/// close to singular, the point is not behind the origin of the ray, and it
/// lies in the triangle.
pub open spec fn triangle_is_hit(det: int, t: int, u: int, v: int, u_plus_v: int) -> bool {
    &&& !(-DET_EPSILON < det < DET_EPSILON)
    &&& 0 <= t
    &&& 0 <= u <= ONE
    &&& 0 <= v
    &&& u_plus_v <= ONE
}

/// Decides whether the solution of the ray and triangle system is a hit,
/// and returns `(t, u, v)` if it is.
///
/// `det` is the determinant of the system, `t` the parameter along the ray,
/// `u` and `v` the coordinates in the triangle, `u_plus_v` their sum.  The
/// solution is refused when the size of `det` is under `1e-10`, when `t` is
/// negative, when `u` is outside `0..=1`, when `v` is negative and when
/// `u + v` is above one.
pub fn intersect_ray_and_triangle(det: Scalar, t: Scalar, u: Scalar, v: Scalar, u_plus_v: Scalar) -> (hit:
    Option<(Scalar, Scalar, Scalar)>)
    ensures
        hit == if triangle_is_hit(det as int, t as int, u as int, v as int, u_plus_v as int) {
            Some((t, u, v))
        } else {
            None
        },
{
    if det < DET_EPSILON && det > -DET_EPSILON {
        return None;
    }
    if t < 0 {
        return None;
    }
    if u < 0 || u > ONE {
        return None;
    }
    if v < 0 || u_plus_v > ONE {
        return None;
    }
    Some((t, u, v))
}

/// The parameter at which a ray meets a sphere, of the two roots
/// `t_1 <= t_2` of the quadratic with the given discriminant: none when the
/// discriminant is negative or both roots lie behind the origin of the ray,
/// and else the smaller root that does not.
pub open spec fn sphere_root(discriminant: int, t_1: int, t_2: int) -> Option<int> {
    if discriminant < 0 || t_2 < 0 {
        None
    } else if t_1 < 0 {
        Some(t_2)
    } else {
        Some(t_1)
    }
}

/// Chooses the parameter at which a ray meets a sphere.
///
/// `discriminant` is that of the quadratic in the parameter, `t_1` its
/// smaller and `t_2` its greater root.  There is no hit when the
/// discriminant is negative and when `t_2` is negative; otherwise the hit
/// is at `t_1`, unless `t_1` is negative, and then at `t_2`.
pub fn intersect_ray_and_sphere(discriminant: Scalar, t_1: Scalar, t_2: Scalar) -> (hit: Option<Scalar>)
    ensures
        match hit {
            Some(t) => sphere_root(discriminant as int, t_1 as int, t_2 as int) == Some(t as int),
            None => sphere_root(discriminant as int, t_1 as int, t_2 as int) is None,
        },
        hit is Some ==> 0 <= hit->0,
        hit is Some && t_1 <= t_2 ==> (hit->0 == t_1 || t_1 < 0),
{
    if discriminant < 0 {
        return None;
    }
    if t_2 < 0 {
        return None;
    }
    let t = if t_1 < 0 {
        t_2
    } else {
        t_1
    };
    Some(t)
}

} // verus!
