//! The share of an image that is exactly one given colour.

use crate::buffer::{BufferView, PixelBuffer};
use crate::layout::ChannelLayout;
use crate::parallel::{chunk_count, chunk_range, chunk_start, lemma_chunks_cover, par_map};
use crate::stats::{ascending, sample_of};
use vstd::prelude::*;

verus! {

/// The quantity of a colour that fills the whole image: one hundred percent,
/// in hundredths of a percent.
pub const FULL_QUANTITY: u32 = 10000;

/// A colour to look for, given with 8 bits per channel. Without an alpha the
/// colour is meant at full opacity.
#[derive(Clone, Copy, Debug, PartialEq, Eq)]
pub struct TargetColor {
    pub r: u8,
    pub g: u8,
    pub b: u8,
    pub a: Option<u8>,
}

/// An 8-bit component as a sample of `layout`. For samples of 16 bits the
/// component is doubled: a fixed policy, no true rescaling.
pub open spec fn scaled(component: int, layout: ChannelLayout) -> int {
    if layout.depth() == 16 {
        2 * component
    } else {
        component
    }
}

impl TargetColor {
    /// The sample that channel `c` of a pixel of `layout` must hold to be of
    /// this colour. The channels are compared in the order red, green, blue,
    /// alpha, whatever order the layout has them in.
    pub open spec fn component(self, c: int, layout: ChannelLayout) -> int {
        if c == 0 {
            scaled(self.r as int, layout)
        } else if c == 1 {
            scaled(self.g as int, layout)
        } else if c == 2 {
            scaled(self.b as int, layout)
        } else {
            match self.a {
                Some(a) => scaled(a as int, layout),
                None => layout.ceiling() as int,
            }
        }
    }

    /// An opaque colour.
    pub fn opaque(r: u8, g: u8, b: u8) -> (color: TargetColor)
        ensures
            color == (TargetColor { r, g, b, a: None }),
    {
        TargetColor { r, g, b, a: None }
    }

    /// The sample that channel `c` of a pixel of `layout` must hold.
    pub fn sample_for(&self, c: usize, layout: ChannelLayout) -> (s: u16)
        requires
            c < 4,
        ensures
            s == self.component(c as int, layout),
    {
        let wide = layout.bit_depth() == 16;
        let component: Option<u8> = if c == 0 {
            Some(self.r)
        } else if c == 1 {
            Some(self.g)
        } else if c == 2 {
            Some(self.b)
        } else {
            self.a
        };
        match component {
            Some(x) => if wide {
                2 * (x as u16)
            } else {
                x as u16
            },
            None => layout.max_sample(),
        }
    }
}

/// Whether pixel `p` is exactly of the colour `target`: every channel that the
/// layout has holds the sample that the target asks for.
pub open spec fn pixel_matches(view: BufferView, target: TargetColor, p: int) -> bool {
    &&& sample_of(view, p, 0) == target.component(0, view.layout)
    &&& sample_of(view, p, 1) == target.component(1, view.layout)
    &&& sample_of(view, p, 2) == target.component(2, view.layout)
    &&& view.layout.alpha() ==> sample_of(view, p, 3) == target.component(3, view.layout)
}

/// The number of pixels from `lo` up to, not including, `hi` that are of the
/// colour `target`.
pub open spec fn match_count(view: BufferView, target: TargetColor, lo: int, hi: int) -> int
    decreases hi - lo,
{
    if hi <= lo {
        0
    } else {
        match_count(view, target, lo, hi - 1) + if pixel_matches(view, target, hi - 1) {
            1int
        } else {
            0int
        }
    }
}

/// The share of `matching` among `pixels`, in hundredths of a percent and
/// rounded down; zero where there are no pixels.
pub open spec fn quantity_of(matching: int, pixels: int) -> int {
    if pixels <= 0 {
        0
    } else {
        matching * FULL_QUANTITY / pixels
    }
}

/// Whether the share of `matching` among `pixels` is larger than `threshold`
/// hundredths of a percent. The shares are compared exactly, without rounding.
pub open spec fn exceeds_share(matching: int, pixels: int, threshold: int) -> bool {
    matching * FULL_QUANTITY > threshold * pixels
}

/// The sum of the first `k` counts.
pub open spec fn count_sum(counts: Seq<usize>, k: int) -> int
    decreases k,
{
    if k <= 0 {
        0
    } else {
        count_sum(counts, k - 1) + counts[k - 1]
    }
}

/// A count over two neighbouring runs of pixels is the sum of the two counts.
pub proof fn lemma_count_splits(view: BufferView, target: TargetColor, lo: int, mid: int, hi: int)
    requires
        lo <= mid <= hi,
    ensures
        match_count(view, target, lo, hi) == match_count(view, target, lo, mid) + match_count(
            view,
            target,
            mid,
            hi,
        ),
    decreases hi - mid,
{
    if mid < hi {
        lemma_count_splits(view, target, lo, mid, hi - 1);
    }
}

/// A run of pixels holds no fewer than zero matches and no more than it has
/// pixels.
pub proof fn lemma_count_bounds(view: BufferView, target: TargetColor, lo: int, hi: int)
    requires
        lo <= hi,
    ensures
        0 <= match_count(view, target, lo, hi) <= hi - lo,
    decreases hi - lo,
{
    if lo < hi {
        lemma_count_bounds(view, target, lo, hi - 1);
    }
}

/// Where every pixel of a run matches, the count is the length of the run.
pub proof fn lemma_all_match(view: BufferView, target: TargetColor, lo: int, hi: int)
    requires
        lo <= hi,
        forall|p: int| lo <= p < hi ==> pixel_matches(view, target, p),
    ensures
        match_count(view, target, lo, hi) == hi - lo,
    decreases hi - lo,
{
    if lo < hi {
        lemma_all_match(view, target, lo, hi - 1);
    }
}

/// Where no pixel of a run matches, the count is zero.
pub proof fn lemma_none_match(view: BufferView, target: TargetColor, lo: int, hi: int)
    requires
        lo <= hi,
        forall|p: int| lo <= p < hi ==> !pixel_matches(view, target, p),
    ensures
        match_count(view, target, lo, hi) == 0,
    decreases hi - lo,
{
    if lo < hi {
        lemma_none_match(view, target, lo, hi - 1);
    }
}

/// An image with at least one pixel, all of them of the target colour, has the
/// full quantity of it, however many pixels it has.
pub proof fn lemma_full_match_is_full_quantity(view: BufferView, target: TargetColor)
    requires
        view.pixels() > 0,
        forall|p: int| 0 <= p < view.pixels() ==> pixel_matches(view, target, p),
    ensures
        quantity_of(match_count(view, target, 0, view.pixels() as int), view.pixels() as int)
            == FULL_QUANTITY,
{
    let n = view.pixels() as int;
    lemma_all_match(view, target, 0, n);
    assert(n * 10000 / n == 10000) by (nonlinear_arith)
        requires
            n > 0,
    ;
}

/// An image without a pixel of the target colour has the quantity zero of it.
pub proof fn lemma_no_match_is_zero_quantity(view: BufferView, target: TargetColor)
    requires
        forall|p: int| 0 <= p < view.pixels() ==> !pixel_matches(view, target, p),
    ensures
        quantity_of(match_count(view, target, 0, view.pixels() as int), view.pixels() as int)
            == 0,
{
    let n = view.pixels() as int;
    lemma_none_match(view, target, 0, n);
    if n > 0 {
        assert(0int * 10000 / n == 0) by (nonlinear_arith)
            requires
                n > 0,
        ;
    }
}

/// Whether pixel `p` of `image` is exactly of the colour `target`.
pub fn is_target(image: &PixelBuffer, target: &TargetColor, p: usize) -> (yes: bool)
    requires
        p < image@.pixels(),
    ensures
        yes == pixel_matches(image@, *target, p as int),
{
    let layout = image.layout();
    if image.sample(p, 0) != target.sample_for(0, layout) {
        return false;
    }
    if image.sample(p, 1) != target.sample_for(1, layout) {
        return false;
    }
    if image.sample(p, 2) != target.sample_for(2, layout) {
        return false;
    }
    if layout.has_alpha() {
        image.sample(p, 3) == target.sample_for(3, layout)
    } else {
        true
    }
}

/// The number of pixels from `lo` up to, not including, `hi` that are of the
/// colour `target`, counted one after the other.
pub fn count_between(image: &PixelBuffer, target: &TargetColor, lo: usize, hi: usize) -> (count:
    usize)
    requires
        lo <= hi <= image@.pixels(),
    ensures
        count == match_count(image@, *target, lo as int, hi as int),
{
    let mut count: usize = 0;
    let mut p: usize = lo;
    while p < hi
        invariant
            lo <= p <= hi <= image@.pixels(),
            count == match_count(image@, *target, lo as int, p as int),
        decreases hi - p,
    {
        proof {
            lemma_count_bounds(image@, *target, lo as int, p as int);
        }
        if is_target(image, target, p) {
            count += 1;
        }
        p += 1;
    }
    count
}

/// Whether `counts` are the numbers of matches in the runs between `cuts`,
/// one for each.
pub open spec fn counts_between(
    view: BufferView,
    target: TargetColor,
    cuts: Seq<int>,
    counts: Seq<usize>,
) -> bool {
    &&& cuts.len() == counts.len() + 1
    &&& forall|i: int|
        0 <= i < counts.len() ==> #[trigger] counts[i] == match_count(
            view,
            target,
            cuts[i],
            cuts[i + 1],
        )
}

/// However a run of pixels is cut into neighbouring chunks, the counts of the
/// first `k` chunks add up to the count over the pixels that they cover.
pub proof fn lemma_partial_counts_add_up(
    view: BufferView,
    target: TargetColor,
    cuts: Seq<int>,
    counts: Seq<usize>,
    k: int,
)
    requires
        ascending(cuts),
        counts_between(view, target, cuts, counts),
        0 <= k <= counts.len(),
    ensures
        count_sum(counts, k) == match_count(view, target, cuts[0], cuts[k]),
        cuts[0] <= cuts[k],
        0 <= count_sum(counts, k) <= cuts[k] - cuts[0],
    decreases k,
{
    if k > 0 {
        lemma_partial_counts_add_up(view, target, cuts, counts, k - 1);
        assert(cuts[k - 1] <= cuts[k - 1 + 1]);
        assert(counts[k - 1] == match_count(view, target, cuts[k - 1], cuts[k - 1 + 1]));
        lemma_count_splits(view, target, cuts[0], cuts[k - 1], cuts[k]);
    }
    lemma_count_bounds(view, target, cuts[0], cuts[k]);
}

/// The number of pixels of `image` that are of the colour `target`. The
/// pixels are handed to the thread pool in chunks of `chunk_pixels`, which has
/// no influence on the result; zero is read as one pixel.
pub fn count_matches(image: &PixelBuffer, target: &TargetColor, chunk_pixels: usize) -> (count:
    usize)
    ensures
        count == match_count(image@, *target, 0, image@.pixels() as int),
{
    let n = image.pixel_count();
    let step: usize = if chunk_pixels == 0 {
        1
    } else {
        chunk_pixels
    };
    let chunks = chunk_count(n, step);
    let count_chunk = |i: usize| -> (part: usize)
        requires
            i < chunks,
        ensures
            part == match_count(
                image@,
                *target,
                chunk_start(i as int, step as int, n as int),
                chunk_start(i + 1, step as int, n as int),
            ),
        {
            let (lo, hi) = chunk_range(i, step, n);
            count_between(image, target, lo, hi)
        };
    let counts = par_map(chunks, count_chunk);
    proof {
        let (s, m) = (step as int, n as int);
        let cuts = Seq::new((chunks + 1) as nat, |i: int| chunk_start(i, s, m));
        lemma_chunks_cover(m, s);
        assert forall|i: int| 0 <= i < counts@.len() implies #[trigger] counts@[i] == match_count(
            image@,
            *target,
            cuts[i],
            cuts[i + 1],
        ) by {
            assert(call_ensures(count_chunk, (i as usize,), counts@[i]));
        }
        assert forall|i: int| 0 <= i < cuts.len() - 1 implies #[trigger] cuts[i] <= cuts[i + 1] by {
            assert(chunk_start(i, s, m) <= chunk_start(i + 1, s, m));
        }
        lemma_partial_counts_add_up(image@, *target, cuts, counts@, chunks as int);
    }
    sum_counts(&counts)
}

/// The sums of counts grow with the number of counts.
proof fn lemma_count_sum_grows(counts: Seq<usize>, m: int, n: int)
    requires
        0 <= m <= n <= counts.len(),
    ensures
        0 <= count_sum(counts, m) <= count_sum(counts, n),
    decreases n,
{
    if m < n {
        lemma_count_sum_grows(counts, m, n - 1);
    } else if m > 0 {
        lemma_count_sum_grows(counts, m - 1, m - 1);
    }
}

/// Adds up the counts of several chunks.
fn sum_counts(counts: &Vec<usize>) -> (total: usize)
    requires
        count_sum(counts@, counts@.len() as int) <= usize::MAX,
    ensures
        total == count_sum(counts@, counts@.len() as int),
{
    let mut total: usize = 0;
    let mut k: usize = 0;
    while k < counts.len()
        invariant
            k <= counts@.len(),
            total == count_sum(counts@, k as int),
            count_sum(counts@, counts@.len() as int) <= usize::MAX,
        decreases counts@.len() - k,
    {
        proof {
            lemma_count_sum_grows(counts@, k + 1, counts@.len() as int);
        }
        total += counts[k];
        k += 1;
    }
    total
}

/// How much of an image is of one colour.
pub struct ColorMatch {
    target: TargetColor,
    matching: usize,
    pixels: usize,
}

/// What a `ColorMatch` holds, as mathematical values.
pub struct ColorMatchView {
    pub target: TargetColor,
    pub matching: nat,
    pub pixels: nat,
}

impl View for ColorMatch {
    type V = ColorMatchView;

    closed spec fn view(&self) -> ColorMatchView {
        ColorMatchView {
            target: self.target,
            matching: self.matching as nat,
            pixels: self.pixels as nat,
        }
    }
}

impl ColorMatch {
    #[verifier::type_invariant]
    spec fn inv(self) -> bool {
        self.matching <= self.pixels
    }

    /// Counts the pixels of `image` that are of the colour `target`.
    pub fn measure(image: &PixelBuffer, target: TargetColor, chunk_pixels: usize) -> (found:
        ColorMatch)
        ensures
            found@.target == target,
            found@.matching == match_count(image@, target, 0, image@.pixels() as int),
            found@.pixels == image@.pixels(),
    {
        let pixels = image.pixel_count();
        let matching = count_matches(image, &target, chunk_pixels);
        proof {
            lemma_count_bounds(image@, target, 0, pixels as int);
        }
        ColorMatch { target, matching, pixels }
    }

    /// The colour that was looked for.
    pub fn target(&self) -> (target: TargetColor)
        ensures
            target == self@.target,
    {
        self.target
    }

    /// The number of pixels of that colour.
    pub fn matching(&self) -> (n: usize)
        ensures
            n == self@.matching,
            self@.matching <= self@.pixels,
    {
        proof {
            use_type_invariant(self);
        }
        self.matching
    }

    /// The number of pixels of the image.
    pub fn pixels(&self) -> (n: usize)
        ensures
            n == self@.pixels,
    {
        self.pixels
    }

    /// The share of the image that is of that colour, in hundredths of a
    /// percent and rounded down.
    pub fn quantity(&self) -> (q: u32)
        ensures
            q == quantity_of(self@.matching as int, self@.pixels as int),
            q <= FULL_QUANTITY,
    {
        proof {
            use_type_invariant(self);
        }
        if self.pixels == 0 {
            return 0;
        }
        let (m, n) = (self.matching as u128, self.pixels as u128);
        assert(m * 10000 <= 0x1_0000_0000_0000_0000 * 10000 && (m * 10000) / (n as int) <= 10000)
            by (nonlinear_arith)
            requires
                0 <= m <= n <= 0x1_0000_0000_0000_0000,
                n > 0,
        ;
        (m * 10000 / n) as u32
    }

    /// Whether the share of the image that is of that colour is larger than
    /// `threshold` hundredths of a percent.
    pub fn exceeds(&self, threshold: u32) -> (yes: bool)
        ensures
            yes == exceeds_share(self@.matching as int, self@.pixels as int, threshold as int),
    {
        proof {
            use_type_invariant(self);
        }
        let (m, n, t) = (self.matching as u128, self.pixels as u128, threshold as u128);
        assert(m * 10000 <= 0x1_0000_0000_0000_0000 * 10000 && t * n <= 0x1_0000_0000
            * 0x1_0000_0000_0000_0000) by (nonlinear_arith)
            requires
                0 <= m <= 0x1_0000_0000_0000_0000,
                0 <= n <= 0x1_0000_0000_0000_0000,
                0 <= t <= 0x1_0000_0000,
        ;
        m * 10000 > t * n
    }
}

} // verus!
