//! Spectra: which basis spectra make up a display colour.
//!
//! A colour given by red, green and blue is turned into a spectrum as a sum
//! of three basis spectra: white, weighted by the least of the three
//! channels; the secondary colour that lacks the least channel, weighted by
//! what the middle channel has above the least; and the primary colour of
//! the greatest channel, weighted by what it has above the middle one.  This
//! module decides the three basis spectra; the weights and the sum are
//! floating-point work of the caller.
use crate::geometry::common::Scalar;
use vstd::prelude::*;

verus! {

/// Number of samples of a sampled spectrum.
pub const N_SAMPLES: usize = 60;

/// Shortest sampled wavelength, in nanometres.
pub const SAMPLED_LAMBDA_START: u32 = 400;

/// Longest sampled wavelength, in nanometres.
pub const SAMPLED_LAMBDA_END: u32 = 700;

/// The two families of basis spectra.
#[derive(Clone, Copy, Debug, PartialEq, Eq, Structural)]
pub enum SpectrumType {
    /// For colours of surfaces, which are multiplied along a path.
    Reflectance,
    /// For colours of light sources, which are added.
    Illuminant,
}

/// One of the three channels of a display colour.
#[derive(Clone, Copy, Debug, PartialEq, Eq, Structural)]
pub enum Channel {
    Red,
    Green,
    Blue,
}

/// One of the seven basis spectra of a family.
#[derive(Clone, Copy, Debug, PartialEq, Eq, Structural)]
pub enum Basis {
    White,
    Cyan,
    Magenta,
    Yellow,
    Red,
    Green,
    Blue,
}

/// The three channels of a colour in rising order of their values.
#[derive(Clone, Copy, Debug, PartialEq, Eq, Structural)]
pub struct Split {
    pub lowest: Channel,
    pub middle: Channel,
    pub highest: Channel,
}

impl Channel {
    /// Place of the channel in the order red, green, blue.
    pub open spec fn index(self) -> int {
        match self {
            Channel::Red => 0,
            Channel::Green => 1,
            Channel::Blue => 2,
        }
    }

    /// The value that the colour `(r, g, b)` has in this channel.
    pub open spec fn of(self, r: int, g: int, b: int) -> int {
        match self {
            Channel::Red => r,
            Channel::Green => g,
            Channel::Blue => b,
        }
    }

    /// `self` comes before `other` when the channels of `(r, g, b)` are put
    /// in rising order: its value is less, or the values are equal and it is
    /// the earlier of the two in the order red, green, blue.
    pub open spec fn before(self, other: Channel, r: int, g: int, b: int) -> bool {
        self.of(r, g, b) < other.of(r, g, b) || (self.of(r, g, b) == other.of(r, g, b)
            && self.index() < other.index())
    }
}

impl Split {
    /// The split is the rising order of the channels of `(r, g, b)`: each
    /// channel occurs once, and each comes before the next.
    pub open spec fn sorts(self, r: int, g: int, b: int) -> bool {
        &&& self.lowest.before(self.middle, r, g, b)
        &&& self.middle.before(self.highest, r, g, b)
        &&& self.lowest != self.highest
    }

    pub open spec fn spec_secondary(self) -> Basis {
        match self.lowest {
            Channel::Red => Basis::Cyan,
            Channel::Green => Basis::Magenta,
            Channel::Blue => Basis::Yellow,
        }
    }

    pub open spec fn spec_primary(self) -> Basis {
        match self.highest {
            Channel::Red => Basis::Red,
            Channel::Green => Basis::Green,
            Channel::Blue => Basis::Blue,
        }
    }

    /// The secondary colour that takes part in the sum: the one without the
    /// least channel.  Its weight is the value of the middle channel less
    /// that of the least.
    pub fn secondary(&self) -> (basis: Basis)
        ensures
            basis == self.spec_secondary(),
    {
        match self.lowest {
            Channel::Red => Basis::Cyan,
            Channel::Green => Basis::Magenta,
            Channel::Blue => Basis::Yellow,
        }
    }

    /// The primary colour that takes part in the sum: the one of the
    /// greatest channel.  Its weight is the value of the greatest channel
    /// less that of the middle one.
    pub fn primary(&self) -> (basis: Basis)
        ensures
            basis == self.spec_primary(),
    {
        match self.highest {
            Channel::Red => Basis::Red,
            Channel::Green => Basis::Green,
            Channel::Blue => Basis::Blue,
        }
    }
}

/// Puts the channels of the colour `(r, g, b)` in rising order of their
/// values; channels of equal value keep the order red, green, blue.
pub fn split_rgb(r: Scalar, g: Scalar, b: Scalar) -> (split: Split)
    ensures
        split.sorts(r as int, g as int, b as int),
{
    if r <= g && r <= b {
        if g <= b {
            Split { lowest: Channel::Red, middle: Channel::Green, highest: Channel::Blue }
        } else {
            Split { lowest: Channel::Red, middle: Channel::Blue, highest: Channel::Green }
        }
    } else if g <= b {
        if r <= b {
            Split { lowest: Channel::Green, middle: Channel::Red, highest: Channel::Blue }
        } else {
            Split { lowest: Channel::Green, middle: Channel::Blue, highest: Channel::Red }
        }
    } else {
        if r <= g {
            Split { lowest: Channel::Blue, middle: Channel::Red, highest: Channel::Green }
        } else {
            Split { lowest: Channel::Blue, middle: Channel::Green, highest: Channel::Red }
        }
    }
}

/// How the average of a tabulated curve over a range of wavelengths is
/// found.  The curve joins the tabulated points by straight lines and goes
/// on level before the first and after the last of them.
#[derive(Clone, Copy, Debug, PartialEq, Eq, Structural)]
pub enum Average {
    /// There are no points: the average is zero.
    Zero,
    /// The average is the value of the point at this place, as it is.
    Sample(usize),
    /// The average is an area divided by the width of the range.  The area
    /// is made up of the level stretch before the first point, if `before`,
    /// of the level stretch after the last point, if `after`, and of the
    /// parts within the range of the lines from point `i` to point `i + 1`,
    /// for `first <= i < end`.
    Integrate { before: bool, after: bool, first: usize, end: usize },
}

/// The wavelengths rise: none of them is less than one before it.
pub open spec fn spec_rises(lambdas: Seq<Scalar>) -> bool {
    forall|a: int, b: int| 0 <= a <= b < lambdas.len() ==> lambdas[a] <= lambdas[b]
}

/// Whether the wavelengths of a table rise, as `average_plan` means them
/// to: none of them is less than one before it.
pub fn rises(lambdas: &Vec<Scalar>) -> (ok: bool)
    ensures
        ok == spec_rises(lambdas@),
{
    let n = lambdas.len();
    if n < 2 {
        return true;
    }
    let mut k: usize = 0;
    while k < n - 1
        invariant
            2 <= n == lambdas@.len(),
            k <= n - 1,
            forall|a: int, b: int| 0 <= a <= b <= k ==> lambdas@[a] <= lambdas@[b],
        decreases n - k,
    {
        if lambdas[k] > lambdas[k + 1] {
            return false;
        }
        proof {
            assert forall|a: int, b: int| 0 <= a <= b <= k + 1 implies lambdas@[a] <= lambdas@[b] by {
                if b == k + 1 && a <= k {
                    assert(lambdas@[a] <= lambdas@[k as int]);
                }
            }
        }
        k += 1;
    }
    true
}

/// `i` is the first line that counts for a range that starts at `start`:
/// the first that does not end before `start`, and the last point if every
/// line does.
pub open spec fn is_first_line(lambdas: Seq<Scalar>, start: int, i: int) -> bool {
    &&& 0 <= i < lambdas.len()
    &&& i + 1 < lambdas.len() ==> start <= lambdas[i + 1]
    &&& forall|j: int| 0 <= j < i ==> start > #[trigger] lambdas[j + 1]
}

/// `e` is where the lines that count for a range up to `end` stop, going on
/// from line `first`: the first line from there that starts beyond `end`,
/// and the last point if none does.
pub open spec fn is_end_line(lambdas: Seq<Scalar>, end: int, first: int, e: int) -> bool {
    &&& first <= e < lambdas.len()
    &&& e + 1 < lambdas.len() ==> end < lambdas[e]
    &&& forall|j: int| first <= j < e ==> end >= #[trigger] lambdas[j]
}

/// What `average_plan` answers for the wavelengths `lambdas` and the range
/// from `start` to `end`.
pub open spec fn is_average_plan(lambdas: Seq<Scalar>, start: int, end: int, plan: Average) -> bool {
    let n = lambdas.len() as int;
    if n == 0 {
        plan == Average::Zero
    } else if n == 1 || end <= lambdas[0] {
        plan == Average::Sample(0)
    } else if start >= lambdas[n - 1] {
        plan == Average::Sample((n - 1) as usize)
    } else {
        match plan {
            Average::Integrate { before, after, first, end: e } => {
                &&& before == (start < lambdas[0])
                &&& after == (end > lambdas[n - 1])
                &&& is_first_line(lambdas, start, first as int)
                &&& is_end_line(lambdas, end, first as int, e as int)
            },
            _ => false,
        }
    }
}

/// Plans the average of a tabulated curve over the wavelengths from
/// `lambda_start` to `lambda_end`.  `lambdas` holds the wavelengths of the
/// tabulated points, which are meant to rise.
///
/// Without points the average is zero, and with one point it is the value
/// of that point.  A range that ends at or before the first point has the
/// first value, and one that starts at or after the last point the last
/// value.  Any other range is integrated: over the level stretches outside
/// the table as far as the range reaches them, and over the lines from the
/// first that does not end before the range starts to the last that does
/// not start after the range ends.
pub fn average_plan(lambdas: &Vec<Scalar>, lambda_start: Scalar, lambda_end: Scalar) -> (plan: Average)
    ensures
        is_average_plan(lambdas@, lambda_start as int, lambda_end as int, plan),
{
    let n = lambdas.len();
    if n == 0 {
        return Average::Zero;
    } else if n == 1 {
        return Average::Sample(0);
    }
    let lambda_first = lambdas[0];
    let lambda_last = lambdas[n - 1];

    if lambda_end <= lambda_first {
        return Average::Sample(0);
    } else if lambda_start >= lambda_last {
        return Average::Sample(n - 1);
    }
    let before = lambda_start < lambda_first;
    let after = lambda_end > lambda_last;

    let mut i: usize = 0;
    while i + 1 < n && lambda_start > lambdas[i + 1]
        invariant
            n == lambdas@.len(),
            i < n,
            forall|j: int| 0 <= j < i ==> lambda_start > #[trigger] lambdas@[j + 1],
        decreases n - i,
    {
        i += 1;
    }
    let first = i;

    while i + 1 < n && lambda_end >= lambdas[i]
        invariant
            n == lambdas@.len(),
            first <= i < n,
            forall|j: int| first <= j < i ==> lambda_end >= #[trigger] lambdas@[j],
        decreases n - i,
    {
        i += 1;
    }
    Average::Integrate { before, after, first, end: i }
}

/// A range of wavelengths has one plan only.
pub proof fn lemma_average_plan_unique(lambdas: Seq<Scalar>, start: int, end: int, a: Average, b: Average)
    requires
        is_average_plan(lambdas, start, end, a),
        is_average_plan(lambdas, start, end, b),
    ensures
        a == b,
{
    let n = lambdas.len() as int;
    if n >= 2 && end > lambdas[0] && start < lambdas[n - 1] {
        let (f_a, e_a) = (a->first as int, a->end as int);
        let (f_b, e_b) = (b->first as int, b->end as int);
        if f_a < f_b {
            assert(start > lambdas[f_a + 1]);
        } else if f_b < f_a {
            assert(start > lambdas[f_b + 1]);
        }
        if e_a < e_b {
            assert(end >= lambdas[e_a]);
        } else if e_b < e_a {
            assert(end >= lambdas[e_b]);
        }
    }
}

/// Where the wavelengths rise and the range is not empty, the lines that
/// are integrated are those that overlap the range, and no other: each of
/// them starts no later than the range ends and ends no earlier than the
/// range starts.
pub proof fn lemma_integrated_lines_overlap(lambdas: Seq<Scalar>, start: int, end: int, plan: Average, i: int)
    requires
        spec_rises(lambdas),
        start <= end,
        is_average_plan(lambdas, start, end, plan),
        plan is Integrate,
        0 <= i < lambdas.len() - 1,
    ensures
        plan->first <= i < plan->end ==> lambdas[i] <= end && start <= lambdas[i + 1],
        lambdas[i] < end && start < lambdas[i + 1] ==> plan->first <= i < plan->end,
{
    let first = plan->first as int;
    let e = plan->end as int;
    if first <= i < e {
        assert(end >= lambdas[i]);
        assert(start <= lambdas[first + 1]);
        assert(lambdas[first + 1] <= lambdas[i + 1]);
    }
    if lambdas[i] < end && start < lambdas[i + 1] {
        if i < first {
            assert(start > lambdas[i + 1]);
        }
        if i >= e {
            assert(e + 1 < lambdas.len());
            assert(end < lambdas[e]);
            assert(lambdas[e] <= lambdas[i]);
        }
    }
}

/// A colour has one rising order only: two splits that both sort it are the
/// same split.
pub proof fn lemma_split_unique(a: Split, b: Split, red: int, green: int, blue: int)
    requires
        a.sorts(red, green, blue),
        b.sorts(red, green, blue),
    ensures
        a == b,
{
}

/// The least channel of a split holds the least value of the colour and the
/// highest channel the greatest, and the three channels are distinct: none of
/// the three weights of the sum is taken the wrong way round.
pub proof fn lemma_split_weights(s: Split, r: int, g: int, b: int)
    requires
        s.sorts(r, g, b),
    ensures
        s.lowest.of(r, g, b) <= r && s.lowest.of(r, g, b) <= g && s.lowest.of(r, g, b) <= b,
        s.highest.of(r, g, b) >= r && s.highest.of(r, g, b) >= g && s.highest.of(r, g, b) >= b,
        s.lowest.of(r, g, b) <= s.middle.of(r, g, b) <= s.highest.of(r, g, b),
        s.lowest != s.middle && s.middle != s.highest && s.lowest != s.highest,
{
}

} // verus!
