//! Small helpers on ranked numbers.
use crate::geometry::common::Scalar;
use vstd::prelude::*;

verus! {

/// The least of three integers.
pub open spec fn least_of_three(a: int, b: int, c: int) -> int {
    if a <= b && a <= c {
        a
    } else if b <= c {
        b
    } else {
        c
    }
}

/// The greatest of three integers.
pub open spec fn greatest_of_three(a: int, b: int, c: int) -> int {
    if a >= b && a >= c {
        a
    } else if b >= c {
        b
    } else {
        c
    }
}

/// The smallest of three numbers.
pub fn smaller_of_three(a: Scalar, b: Scalar, c: Scalar) -> (m: Scalar)
    ensures
        m == least_of_three(a as int, b as int, c as int),
        m <= a && m <= b && m <= c,
        m == a || m == b || m == c,
{
    let bc: Scalar = if b <= c { b } else { c };
    if a <= bc { a } else { bc }
}

/// The biggest of three numbers.
pub fn bigger_of_three(a: Scalar, b: Scalar, c: Scalar) -> (m: Scalar)
    ensures
        m == greatest_of_three(a as int, b as int, c as int),
        m >= a && m >= b && m >= c,
        m == a || m == b || m == c,
{
    let bc: Scalar = if b >= c { b } else { c };
    if a >= bc { a } else { bc }
}

} // verus!
