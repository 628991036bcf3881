//! Points and axis-aligned boxes over ranked coordinates.
pub mod aabb;
pub mod common;
pub mod ray;

pub use aabb::AABB;
pub use common::{Point, Scalar};
pub use ray::{intersect_ray_and_sphere, intersect_ray_and_triangle, reaches};
