use vstd::prelude::*;

verus! {

/// A real number held by rank.
///
/// The rank of a number is a 64-bit integer chosen so that `a < b` holds of
/// two ranks exactly when it holds of the numbers they stand for, and so that
/// zero has rank `0`.  For a finite or infinite IEEE-754 double such a rank is
/// its bit pattern read as sign and magnitude.  Nothing in this crate adds or
/// multiplies ranks: they are only compared and copied.
pub type Scalar = i64;

/// A position in space, one rank per axis.
#[derive(Clone, Copy, Debug, PartialEq, Eq, Structural)]
pub struct Point {
    pub x: Scalar,
    pub y: Scalar,
    pub z: Scalar,
}

impl Point {
    /// The point with the given coordinates.
    pub fn new(x: Scalar, y: Scalar, z: Scalar) -> (p: Point)
        ensures
            p == (Point { x, y, z }),
    {
        Point { x, y, z }
    }

    /// The point whose three coordinates are zero.
    pub open spec fn spec_origin() -> Point {
        Point { x: 0, y: 0, z: 0 }
    }

    /// The point whose three coordinates are zero.
    #[verifier::when_used_as_spec(spec_origin)]
    pub fn origin() -> (p: Point)
        ensures
            p == Point::spec_origin(),
    {
        Point { x: 0, y: 0, z: 0 }
    }

    /// `self` is nowhere greater than `other`: on every axis its coordinate
    /// is less than or equal to the other's.
    pub open spec fn le(self, other: Point) -> bool {
        self.x <= other.x && self.y <= other.y && self.z <= other.z
    }

    /// The point that takes on every axis the smaller of the two coordinates.
    pub open spec fn lower(self, other: Point) -> Point {
        Point {
            x: if self.x <= other.x { self.x } else { other.x },
            y: if self.y <= other.y { self.y } else { other.y },
            z: if self.z <= other.z { self.z } else { other.z },
        }
    }

    /// The point that takes on every axis the greater of the two coordinates.
    pub open spec fn upper(self, other: Point) -> Point {
        Point {
            x: if self.x >= other.x { self.x } else { other.x },
            y: if self.y >= other.y { self.y } else { other.y },
            z: if self.z >= other.z { self.z } else { other.z },
        }
    }
}

} // verus!
