//! Four running totals, one for each channel of a pixel.

use vstd::prelude::*;

verus! {

/// One number per channel, as a mathematical integer: what a `Pixel` stands for.
pub struct Channels {
    pub r: int,
    pub g: int,
    pub b: int,
    pub a: int,
}

impl Channels {
    /// All four channels at zero.
    pub open spec fn zero() -> Channels {
        Channels { r: 0, g: 0, b: 0, a: 0 }
    }

    /// Channel by channel addition.
    pub open spec fn plus(self, other: Channels) -> Channels {
        Channels {
            r: self.r + other.r,
            g: self.g + other.g,
            b: self.b + other.b,
            a: self.a + other.a,
        }
    }

    /// Channel by channel division, rounding down.
    pub open spec fn over(self, n: int) -> Channels {
        Channels { r: self.r / n, g: self.g / n, b: self.b / n, a: self.a / n }
    }

    /// The channel at index `c`: red, green, blue, and alpha for anything else.
    pub open spec fn channel(self, c: int) -> int {
        if c == 0 {
            self.r
        } else if c == 1 {
            self.g
        } else if c == 2 {
            self.b
        } else {
            self.a
        }
    }

    /// Whether no channel is negative or above `top`.
    pub open spec fn within(self, top: int) -> bool {
        &&& 0 <= self.r <= top
        &&& 0 <= self.g <= top
        &&& 0 <= self.b <= top
        &&& 0 <= self.a <= top
    }

    /// The sum of the first `n` items of `parts`.
    pub open spec fn sum(parts: Seq<Channels>, n: int) -> Channels
        decreases n,
    {
        if n <= 0 {
            Channels::zero()
        } else {
            Channels::sum(parts, n - 1).plus(parts[n - 1])
        }
    }
}

/// A per-channel accumulator: sums of samples, means, variances.
///
/// The fields are wide enough for the squared deviations of any image that
/// fits in memory, so no total of this library ever wraps.
#[derive(Clone, Copy, Debug, PartialEq, Eq, Structural)]
pub struct Pixel {
    pub r: u128,
    pub g: u128,
    pub b: u128,
    pub a: u128,
}

impl View for Pixel {
    type V = Channels;

    open spec fn view(&self) -> Channels {
        Channels { r: self.r as int, g: self.g as int, b: self.b as int, a: self.a as int }
    }
}

/// The views of a sequence of pixels, in order.
pub open spec fn views(parts: Seq<Pixel>) -> Seq<Channels> {
    Seq::new(parts.len(), |i: int| parts[i]@)
}

impl Pixel {
    /// The accumulator before anything was added.
    pub fn zero() -> (p: Pixel)
        ensures
            p@ == Channels::zero(),
    {
        Pixel { r: 0, g: 0, b: 0, a: 0 }
    }

    /// Channel by channel addition.
    pub fn plus(&self, other: &Pixel) -> (p: Pixel)
        requires
            self@.plus(other@).within(u128::MAX as int),
        ensures
            p@ == self@.plus(other@),
    {
        Pixel {
            r: self.r + other.r,
            g: self.g + other.g,
            b: self.b + other.b,
            a: self.a + other.a,
        }
    }

    /// Adds up the partial totals of several chunks.
    pub fn sum(parts: &Vec<Pixel>) -> (total: Pixel)
        requires
            Channels::sum(views(parts@), parts@.len() as int).within(u128::MAX as int),
        ensures
            total@ == Channels::sum(views(parts@), parts@.len() as int),
    {
        let ghost all = views(parts@);
        let mut total = Pixel::zero();
        let mut i: usize = 0;
        while i < parts.len()
            invariant
                i <= parts@.len(),
                all == views(parts@),
                total@ == Channels::sum(all, i as int),
                Channels::sum(all, parts@.len() as int).within(u128::MAX as int),
            decreases parts@.len() - i,
        {
            proof {
                lemma_sum_grows(all, i as int + 1, parts@.len() as int);
                assert(all[i as int] == parts@[i as int]@);
            }
            total = total.plus(&parts[i]);
            i += 1;
        }
        total
    }

    /// Divides every channel by `rhs`, rounding down.
    pub fn div(&self, rhs: u128) -> (p: Pixel)
        requires
            rhs != 0,
        ensures
            p@ == self@.over(rhs as int),
    {
        Pixel { r: self.r / rhs, g: self.g / rhs, b: self.b / rhs, a: self.a / rhs }
    }

    /// Whether every channel lies below `threshold`.
    pub fn is_zero(&self, threshold: u32) -> (flat: bool)
        ensures
            flat == (self.r < threshold && self.g < threshold && self.b < threshold && self.a
                < threshold),
    {
        let t: u128 = threshold as u128;
        self.r < t && self.g < t && self.b < t && self.a < t
    }
}

/// Adding totals is associative and commutative, and zero adds nothing: in
/// whatever grouping and order partial totals are combined, the result is the
/// same.
pub proof fn lemma_plus_is_order_free(x: Channels, y: Channels, z: Channels)
    ensures
        x.plus(y).plus(z) == x.plus(y.plus(z)),
        x.plus(y) == y.plus(x),
        x.plus(Channels::zero()) == x,
        Channels::zero().plus(x) == x,
{
}

/// Partial sums of totals that are not negative grow with the number of parts.
proof fn lemma_sum_grows(parts: Seq<Channels>, m: int, n: int)
    requires
        0 <= m <= n <= parts.len(),
        forall|i: int| 0 <= i < parts.len() ==> (#[trigger] parts[i]).within(u128::MAX as int),
    ensures
        Channels::sum(parts, m).r <= Channels::sum(parts, n).r,
        Channels::sum(parts, m).g <= Channels::sum(parts, n).g,
        Channels::sum(parts, m).b <= Channels::sum(parts, n).b,
        Channels::sum(parts, m).a <= Channels::sum(parts, n).a,
        0 <= Channels::sum(parts, m).r,
        0 <= Channels::sum(parts, m).g,
        0 <= Channels::sum(parts, m).b,
        0 <= Channels::sum(parts, m).a,
    decreases n,
{
    if m < n {
        lemma_sum_grows(parts, m, n - 1);
        assert(parts[n - 1].within(u128::MAX as int));
    } else if m > 0 {
        lemma_sum_grows(parts, m - 1, m - 1);
        assert(parts[m - 1].within(u128::MAX as int));
    }
}

} // verus!
