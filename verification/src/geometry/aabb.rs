use super::common::{Point, Scalar};
use crate::auxiliar::{bigger_of_three, greatest_of_three, least_of_three, smaller_of_three};
use vstd::prelude::*;

verus! {

/// A box whose faces are parallel to the coordinate planes, given by the
/// corner with the least coordinates and the corner with the greatest.
#[derive(Clone, Copy, Debug, PartialEq, Eq, Structural)]
pub struct AABB {
    pub min: Point,
    pub max: Point,
}

/// The smaller of two ranks.
fn lesser(a: Scalar, b: Scalar) -> (m: Scalar)
    ensures
        m == if a <= b { a } else { b },
{
    if a <= b { a } else { b }
}

/// The greater of two ranks.
fn greater(a: Scalar, b: Scalar) -> (m: Scalar)
    ensures
        m == if a >= b { a } else { b },
{
    if a >= b { a } else { b }
}

/// How a ray stands to the pair of faces of a box that bound it along one
/// axis.
#[derive(Clone, Copy, Debug, PartialEq, Eq, Structural)]
pub enum Slab {
    /// The ray runs parallel to the two faces; `origin` is the coordinate
    /// of its origin on the axis.
    Parallel { origin: Scalar },
    /// The ray crosses the plane of the lower face at the parameter `t_0`
    /// and the plane of the upper face at `t_1`; `forward` tells that it
    /// runs towards greater coordinates.
    Crossing { t_0: Scalar, t_1: Scalar, forward: bool },
}

impl Slab {
    /// The ray passes beside the two faces `lo` and `hi` without ever being
    /// between them.
    pub open spec fn misses(self, lo: int, hi: int) -> bool {
        match self {
            Slab::Parallel { origin } => origin < lo || origin > hi,
            Slab::Crossing { .. } => false,
        }
    }

    /// The parameter at which the ray comes between the two faces, if it
    /// crosses them.
    pub open spec fn entry(self) -> Option<int> {
        match self {
            Slab::Parallel { .. } => None,
            Slab::Crossing { t_0, t_1, forward } => Some(if forward { t_0 as int } else { t_1 as int }),
        }
    }

    /// The parameter at which the ray leaves the space between the two
    /// faces, if it crosses them.
    pub open spec fn exit(self) -> Option<int> {
        match self {
            Slab::Parallel { .. } => None,
            Slab::Crossing { t_0, t_1, forward } => Some(if forward { t_1 as int } else { t_0 as int }),
        }
    }
}

/// `near` raised to the entry of the slab, if it has one and it is later.
pub open spec fn later_entry(near: int, slab: Slab) -> int {
    match slab.entry() {
        Some(t) if t > near => t,
        _ => near,
    }
}

/// `far` lowered to the exit of the slab, if it has one and it is earlier;
/// `None` stands for no bound.
pub open spec fn earlier_exit(far: Option<int>, slab: Slab) -> Option<int> {
    match (far, slab.exit()) {
        (Some(f), Some(t)) => Some(if t < f { t } else { f }),
        (None, Some(t)) => Some(t),
        (_, None) => far,
    }
}

/// The parameter from which on a ray is inside all three slabs: the latest
/// of its entries, and zero if they are all earlier.
pub open spec fn slabs_near(x: Slab, y: Slab, z: Slab) -> int {
    later_entry(later_entry(later_entry(0, x), y), z)
}

/// The parameter up to which a ray is inside all three slabs: the earliest
/// of its exits, `None` if it crosses no slab and so never leaves.
pub open spec fn slabs_far(x: Slab, y: Slab, z: Slab) -> Option<int> {
    earlier_exit(earlier_exit(earlier_exit(None, x), y), z)
}

impl AABB {
    /// Where a ray enters the box, given how it stands to the three pairs
    /// of faces: nowhere if it passes beside one pair, or leaves one pair
    /// before it has come between all of them, and else at the parameter
    /// from which on it is between all three, which is zero for a ray that
    /// starts inside.
    pub open spec fn spec_intersect_ray(self, x: Slab, y: Slab, z: Slab) -> Option<int> {
        if x.misses(self.min.x as int, self.max.x as int) || y.misses(
            self.min.y as int,
            self.max.y as int,
        ) || z.misses(self.min.z as int, self.max.z as int) {
            None
        } else {
            match slabs_far(x, y, z) {
                Some(far) if slabs_near(x, y, z) > far => None,
                _ => Some(slabs_near(x, y, z)),
            }
        }
    }

    /// The box is well formed: on every axis `min` does not exceed `max`.
    pub open spec fn is_valid(self) -> bool {
        self.min.le(self.max)
    }

    /// The point lies in the box, faces included.
    pub open spec fn holds(self, p: Point) -> bool {
        self.min.le(p) && p.le(self.max)
    }

    /// Every point of `inner` lies in `self`.
    pub open spec fn encloses(self, inner: AABB) -> bool {
        self.min.le(inner.min) && inner.max.le(self.max)
    }

    /// The smallest box that encloses both boxes.
    pub open spec fn spec_union(self, other: AABB) -> AABB {
        AABB { min: self.min.lower(other.min), max: self.max.upper(other.max) }
    }

    /// The smallest box that encloses the box and the point.
    pub open spec fn spec_union_point(self, p: Point) -> AABB {
        AABB { min: self.min.lower(p), max: self.max.upper(p) }
    }

    /// What two boxes have in common; not well formed when they have nothing.
    pub open spec fn spec_intersect(self, other: AABB) -> AABB {
        AABB { min: self.min.upper(other.min), max: self.max.lower(other.max) }
    }

    /// On every axis the two extents meet.
    pub open spec fn spec_overlaps(self, other: AABB) -> bool {
        other.min.le(self.max) && self.min.le(other.max)
    }

    /// The empty box: the single point at the origin.
    pub fn empty() -> (b: AABB)
        ensures
            b.min == Point::spec_origin(),
            b.max == Point::spec_origin(),
            b.is_valid(),
    {
        AABB { min: Point::origin(), max: Point::origin() }
    }

    /// The box that holds one point and nothing else.
    pub fn from_point(p: &Point) -> (b: AABB)
        ensures
            b.min == *p,
            b.max == *p,
            b.is_valid(),
    {
        AABB { min: *p, max: *p }
    }

    /// The box spanned by two opposite corners, given in any order.
    pub fn new(p_1: &Point, p_2: &Point) -> (b: AABB)
        ensures
            b.min == p_1.lower(*p_2),
            b.max == p_1.upper(*p_2),
            b.is_valid(),
            b.holds(*p_1),
            b.holds(*p_2),
    {
        AABB {
            min: Point {
                x: lesser(p_1.x, p_2.x),
                y: lesser(p_1.y, p_2.y),
                z: lesser(p_1.z, p_2.z),
            },
            max: Point {
                x: greater(p_1.x, p_2.x),
                y: greater(p_1.y, p_2.y),
                z: greater(p_1.z, p_2.z),
            },
        }
    }

    /// The corner with the least coordinates.
    pub fn min(&self) -> (p: Point)
        ensures
            p == self.min,
    {
        self.min
    }

    /// The corner with the greatest coordinates.
    pub fn max(&self) -> (p: Point)
        ensures
            p == self.max,
    {
        self.max
    }

    /// The smallest box that encloses both `self` and `other`.
    pub fn union(&self, other: &AABB) -> (b: AABB)
        ensures
            b == self.spec_union(*other),
            b.encloses(*self),
            b.encloses(*other),
            self.is_valid() || other.is_valid() ==> b.is_valid(),
    {
        AABB {
            min: Point {
                x: lesser(self.min.x, other.min.x),
                y: lesser(self.min.y, other.min.y),
                z: lesser(self.min.z, other.min.z),
            },
            max: Point {
                x: greater(self.max.x, other.max.x),
                y: greater(self.max.y, other.max.y),
                z: greater(self.max.z, other.max.z),
            },
        }
    }

    /// The smallest box that encloses both the box and the point.
    pub fn union_point(box_: &AABB, p: &Point) -> (b: AABB)
        ensures
            b == box_.spec_union_point(*p),
            b == box_.spec_union(AABB { min: *p, max: *p }),
            b.encloses(*box_),
            b.holds(*p),
            b.is_valid(),
    {
        AABB {
            min: Point {
                x: lesser(box_.min.x, p.x),
                y: lesser(box_.min.y, p.y),
                z: lesser(box_.min.z, p.z),
            },
            max: Point {
                x: greater(box_.max.x, p.x),
                y: greater(box_.max.y, p.y),
                z: greater(box_.max.z, p.z),
            },
        }
    }

    /// Grows the box until it also encloses `otra`.
    pub fn resize_box(&mut self, otra: &AABB)
        ensures
            *final(self) == old(self).spec_union(*otra),
            final(self).encloses(*old(self)),
            final(self).encloses(*otra),
            old(self).is_valid() || otra.is_valid() ==> final(self).is_valid(),
    {
        *self = AABB::union(self, otra);
    }

    /// The part that the two boxes share.  Where they share nothing the
    /// result is not well formed.
    pub fn intersect(&self, other: &AABB) -> (b: AABB)
        ensures
            b == self.spec_intersect(*other),
            self.is_valid() && other.is_valid() ==> (b.is_valid() <==> self.spec_overlaps(*other)),
            forall|p: Point| b.holds(p) <==> self.holds(p) && other.holds(p),
    {
        AABB {
            min: Point {
                x: greater(self.min.x, other.min.x),
                y: greater(self.min.y, other.min.y),
                z: greater(self.min.z, other.min.z),
            },
            max: Point {
                x: lesser(self.max.x, other.max.x),
                y: lesser(self.max.y, other.max.y),
                z: lesser(self.max.z, other.max.z),
            },
        }
    }

    /// Whether the two boxes have a point in common.
    pub fn overlaps(&self, other: &AABB) -> (hit: bool)
        ensures
            hit == self.spec_overlaps(*other),
    {
        let x = self.max.x >= other.min.x && self.min.x <= other.max.x;
        let y = self.max.y >= other.min.y && self.min.y <= other.max.y;
        let z = self.max.z >= other.min.z && self.min.z <= other.max.z;

        x && y && z
    }

    /// Whether the point lies in the box, faces included.
    pub fn point_inside(&self, p: &Point) -> (inside: bool)
        ensures
            inside == self.holds(*p),
    {
        p.x >= self.min.x && p.x <= self.max.x && p.y >= self.min.y && p.y <= self.max.y && p.z
            >= self.min.z && p.z <= self.max.z
    }

    /// The box of a group of shapes whose boxes are `boxes`: the union of
    /// them all.  A group without shapes has the empty box.
    pub open spec fn spec_enclosing(boxes: Seq<AABB>) -> AABB
        decreases boxes.len(),
    {
        if boxes.len() == 0 {
            AABB { min: Point::spec_origin(), max: Point::spec_origin() }
        } else if boxes.len() == 1 {
            boxes[0]
        } else {
            Self::spec_enclosing(boxes.drop_last()).spec_union(boxes.last())
        }
    }

    /// The box of a group of shapes whose boxes are `boxes`: the union of
    /// them all, which is the least box that encloses every one of them.  The
    /// box of a single shape is that shape's box, and a group without shapes
    /// has the empty box.
    pub fn enclosing(boxes: &Vec<AABB>) -> (b: AABB)
        ensures
            b == Self::spec_enclosing(boxes@),
            forall|i: int| 0 <= i < boxes@.len() ==> b.encloses(#[trigger] boxes@[i]),
            (forall|i: int| 0 <= i < boxes@.len() ==> (#[trigger] boxes@[i]).is_valid()) ==> b.is_valid(),
    {
        if boxes.len() == 0 {
            return AABB::empty();
        }
        let mut caja = boxes[0];
        let mut k: usize = 1;
        proof {
            assert(boxes@.take(1).len() == 1 && boxes@.take(1)[0] == boxes@[0]);
        }
        while k < boxes.len()
            invariant
                1 <= k <= boxes@.len(),
                caja == Self::spec_enclosing(boxes@.take(k as int)),
                forall|i: int| 0 <= i < k ==> caja.encloses(#[trigger] boxes@[i]),
                (forall|i: int| 0 <= i < boxes@.len() ==> (#[trigger] boxes@[i]).is_valid())
                    ==> caja.is_valid(),
            decreases boxes@.len() - k,
        {
            proof {
                let next = boxes@.take(k + 1);
                assert(next.drop_last() =~= boxes@.take(k as int));
                assert(next.last() == boxes@[k as int]);
            }
            caja.resize_box(&boxes[k]);
            k += 1;
        }
        proof {
            assert(boxes@.take(k as int) =~= boxes@);
        }
        caja
    }

    /// The box of a group is the least that encloses the boxes of all its
    /// shapes: whatever encloses each of them encloses the box of the group.
    pub proof fn lemma_enclosing_least(boxes: Seq<AABB>, c: AABB)
        requires
            boxes.len() > 0,
            forall|i: int| 0 <= i < boxes.len() ==> c.encloses(#[trigger] boxes[i]),
        ensures
            c.encloses(Self::spec_enclosing(boxes)),
        decreases boxes.len(),
    {
        if boxes.len() > 1 {
            let front = boxes.drop_last();
            assert forall|i: int| 0 <= i < front.len() implies c.encloses(#[trigger] front[i]) by {
                assert(front[i] == boxes[i]);
            }
            Self::lemma_enclosing_least(front, c);
            assert(c.encloses(boxes.last()));
        } else {
            assert(c.encloses(boxes[0]));
        }
    }

    /// The box of a triangle: the least box that holds its three corners.
    pub fn around_triangle(p_1: &Point, p_2: &Point, p_3: &Point) -> (b: AABB)
        ensures
            b.min.x == least_of_three(p_1.x as int, p_2.x as int, p_3.x as int),
            b.min.y == least_of_three(p_1.y as int, p_2.y as int, p_3.y as int),
            b.min.z == least_of_three(p_1.z as int, p_2.z as int, p_3.z as int),
            b.max.x == greatest_of_three(p_1.x as int, p_2.x as int, p_3.x as int),
            b.max.y == greatest_of_three(p_1.y as int, p_2.y as int, p_3.y as int),
            b.max.z == greatest_of_three(p_1.z as int, p_2.z as int, p_3.z as int),
            b.is_valid(),
            b.holds(*p_1) && b.holds(*p_2) && b.holds(*p_3),
            forall|c: AABB| c.holds(*p_1) && c.holds(*p_2) && c.holds(*p_3) ==> c.encloses(b),
    {
        let min = Point {
            x: smaller_of_three(p_1.x, p_2.x, p_3.x),
            y: smaller_of_three(p_1.y, p_2.y, p_3.y),
            z: smaller_of_three(p_1.z, p_2.z, p_3.z),
        };
        let max = Point {
            x: bigger_of_three(p_1.x, p_2.x, p_3.x),
            y: bigger_of_three(p_1.y, p_2.y, p_3.y),
            z: bigger_of_three(p_1.z, p_2.z, p_3.z),
        };

        AABB::new(&min, &max)
    }

    /// The slab test: where a ray enters the box, if it does.
    ///
    /// `x`, `y` and `z` tell how the ray stands to the faces of the box
    /// along each axis.  Along an axis to which the ray runs parallel, it
    /// misses the box if its origin is not between the two faces.  Along
    /// any other axis the two crossings, put in order by the direction of
    /// the ray, narrow the interval of parameters in which the ray is
    /// inside, which starts as everything from zero on; the ray misses the
    /// box as soon as that interval is empty.  The result is the start of
    /// the interval, which is never negative.
    pub fn intersect_ray(&self, x: Slab, y: Slab, z: Slab) -> (hit: Option<Scalar>)
        ensures
            match hit {
                Some(t) => self.spec_intersect_ray(x, y, z) == Some(t as int),
                None => self.spec_intersect_ray(x, y, z) is None,
            },
            hit is Some ==> 0 <= hit->0,
    {
        let mut near: Scalar = 0;
        let mut far: Option<Scalar> = None;
        let slabs = [x, y, z];
        let lows = [self.min.x, self.min.y, self.min.z];
        let highs = [self.max.x, self.max.y, self.max.z];
        let ghost mut spec_far: Option<int> = None;
        let mut axis: usize = 0;
        while axis < 3
            invariant
                axis <= 3,
                slabs@ == seq![x, y, z],
                lows@ == seq![self.min.x, self.min.y, self.min.z],
                highs@ == seq![self.max.x, self.max.y, self.max.z],
                0 <= near,
                spec_far == match far {
                    Some(f) => Some(f as int),
                    None => None::<int>,
                },
                forall|i: int| 0 <= i < axis ==> !(#[trigger] slabs@[i]).misses(lows@[i] as int, highs@[i] as int),
                spec_far is Some ==> near <= spec_far->0,
                axis == 0 ==> near == 0 && spec_far is None,
                axis == 1 ==> near == later_entry(0, x) && spec_far == earlier_exit(None, x),
                axis == 2 ==> near == later_entry(later_entry(0, x), y) && spec_far == earlier_exit(
                    earlier_exit(None, x),
                    y,
                ),
                axis == 3 ==> near == slabs_near(x, y, z) && spec_far == slabs_far(x, y, z),
            decreases 3 - axis,
        {
            match slabs[axis] {
                Slab::Parallel { origin } => {
                    if origin < lows[axis] || origin > highs[axis] {
                        return None;
                    }
                },
                Slab::Crossing { t_0, t_1, forward } => {
                    let (t_min, t_max) = if forward {
                        (t_0, t_1)
                    } else {
                        (t_1, t_0)
                    };
                    if t_min > near {
                        near = t_min;
                    }
                    far =
                    match far {
                        Some(f) => Some(if t_max < f { t_max } else { f }),
                        None => Some(t_max),
                    };
                    proof {
                        spec_far = earlier_exit(spec_far, slabs@[axis as int]);
                    }
                    match far {
                        Some(f) => {
                            if near > f {
                                proof {
                                    lemma_slabs_narrow(x, y, z);
                                }
                                return None;
                            }
                        },
                        None => {},
                    }
                },
            }
            axis += 1;
        }
        Some(near)
    }

    /// A ray that starts inside a box enters it at its start.  Inside means
    /// here: along every axis the ray either runs parallel between the two
    /// faces, or comes between them no later than at its start, parameter
    /// zero, and leaves them no earlier.
    pub proof fn lemma_ray_from_inside_hits(self, x: Slab, y: Slab, z: Slab)
        requires
            !x.misses(self.min.x as int, self.max.x as int),
            !y.misses(self.min.y as int, self.max.y as int),
            !z.misses(self.min.z as int, self.max.z as int),
            x.entry() is Some ==> x.entry()->0 <= 0 <= x.exit()->0,
            y.entry() is Some ==> y.entry()->0 <= 0 <= y.exit()->0,
            z.entry() is Some ==> z.entry()->0 <= 0 <= z.exit()->0,
        ensures
            self.spec_intersect_ray(x, y, z) == Some(0int),
    {
    }

    /// Uniting a box with itself changes nothing.
    pub proof fn lemma_union_idempotent(a: AABB)
        ensures
            a.spec_union(a) == a,
    {
    }

    /// The union of two boxes does not depend on their order.
    pub proof fn lemma_union_commutative(a: AABB, b: AABB)
        ensures
            a.spec_union(b) == b.spec_union(a),
    {
    }

    /// The union of three boxes does not depend on how they are grouped.
    pub proof fn lemma_union_associative(a: AABB, b: AABB, c: AABB)
        ensures
            a.spec_union(b).spec_union(c) == a.spec_union(b.spec_union(c)),
    {
    }

    /// A union encloses both of its operands, and so holds every point that
    /// either of them holds.
    pub proof fn lemma_union_encloses_operands(a: AABB, b: AABB)
        ensures
            a.spec_union(b).encloses(a),
            a.spec_union(b).encloses(b),
            forall|p: Point| a.holds(p) || b.holds(p) ==> #[trigger] a.spec_union(b).holds(p),
    {
    }

    /// A union is the least box that encloses both operands: whatever
    /// encloses the two encloses their union.
    pub proof fn lemma_union_least(a: AABB, b: AABB, c: AABB)
        requires
            c.encloses(a),
            c.encloses(b),
        ensures
            c.encloses(a.spec_union(b)),
    {
    }

    /// Two well-formed boxes overlap exactly when some point lies in both.
    pub proof fn lemma_overlaps_iff_common_point(a: AABB, b: AABB)
        requires
            a.is_valid(),
            b.is_valid(),
        ensures
            a.spec_overlaps(b) <==> exists|p: Point| a.holds(p) && b.holds(p),
    {
        if a.spec_overlaps(b) {
            let p = a.spec_intersect(b).min;
            assert(a.holds(p) && b.holds(p));
        }
    }
}

/// Entries only ever rise and exits only ever fall as slabs are taken into
/// account: once the interval of a ray is empty it stays empty.
proof fn lemma_slabs_narrow(x: Slab, y: Slab, z: Slab)
    ensures
        later_entry(0, x) <= later_entry(later_entry(0, x), y) <= slabs_near(x, y, z),
        earlier_exit(None, x) is Some ==> earlier_exit(earlier_exit(None, x), y) is Some
            && earlier_exit(earlier_exit(None, x), y)->0 <= earlier_exit(None, x)->0,
        earlier_exit(earlier_exit(None, x), y) is Some ==> slabs_far(x, y, z) is Some && slabs_far(
            x,
            y,
            z,
        )->0 <= earlier_exit(earlier_exit(None, x), y)->0,
{
}

} // verus!
