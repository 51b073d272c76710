//! Mean and variance of every channel of an image, computed chunk by chunk on
//! the thread pool.

use crate::buffer::{lemma_pixel_inside, BufferView, PixelBuffer};
use crate::parallel::{chunk_count, chunk_range, chunk_start, lemma_chunks_cover, par_map};
use crate::pixel::{views, Channels, Pixel};
use vstd::prelude::*;

verus! {

/// The largest sample that any layout holds.
pub const SAMPLE_MAX: u128 = 65535;

/// The largest squared deviation of a sample from a mean.
pub const SQUARE_MAX: u128 = 65535 * 65535;

/// The number of pixels that one task of the thread pool sums up.
pub const CHUNK_PIXELS: usize = 16384;

/// How far a sample below the mean counts as being away from it.
#[derive(Clone, Copy, Debug, PartialEq, Eq, Structural)]
pub enum Deviation {
    /// By its distance, as for a sample above the mean.
    Exact,
    /// Not at all: the difference is cut off at zero, as subtraction on
    /// unsigned samples does it. This makes the variance too small.
    ClampedBelowMean,
}

/// What one pass over the pixels adds up in every channel.
#[derive(Clone, Copy, Debug, PartialEq, Eq, Structural)]
pub enum Measure {
    /// The samples themselves.
    Samples,
    /// The squares of the deviations of the samples from `mean`.
    SquaredDeviation { mean: Pixel, deviation: Deviation },
}

/// A `Measure` with its mean as mathematical integers: what a `Measure` stands
/// for.
pub enum MeasureModel {
    Samples,
    SquaredDeviation { mean: Channels, deviation: Deviation },
}

impl View for Measure {
    type V = MeasureModel;

    open spec fn view(&self) -> MeasureModel {
        match *self {
            Measure::Samples => MeasureModel::Samples,
            Measure::SquaredDeviation { mean, deviation } => MeasureModel::SquaredDeviation {
                mean: mean@,
                deviation,
            },
        }
    }
}

impl MeasureModel {
    /// Whether the mean, where there is one, is a value that a sample can take.
    pub open spec fn bounded(self) -> bool {
        self matches MeasureModel::SquaredDeviation { mean, .. } ==> mean.within(SAMPLE_MAX as int)
    }
}

/// The sample of channel `c` in pixel `p`, and zero for a channel that the
/// layout does not have.
pub open spec fn sample_of(view: BufferView, p: int, c: int) -> int {
    if 0 <= c < view.channels() {
        view.samples[p * view.channels() + c] as int
    } else {
        0
    }
}

/// The square of the deviation of `sample` from `mean`.
pub open spec fn squared_deviation(sample: int, mean: int, deviation: Deviation) -> int {
    if sample >= mean {
        (sample - mean) * (sample - mean)
    } else {
        match deviation {
            Deviation::Exact => (mean - sample) * (mean - sample),
            Deviation::ClampedBelowMean => 0,
        }
    }
}

/// What pixel `p` adds to the total of channel `c`.
pub open spec fn term(view: BufferView, measure: MeasureModel, p: int, c: int) -> int {
    match measure {
        MeasureModel::Samples => sample_of(view, p, c),
        MeasureModel::SquaredDeviation { mean, deviation } => squared_deviation(
            sample_of(view, p, c),
            mean.channel(c),
            deviation,
        ),
    }
}

/// The total of channel `c` over the pixels from `lo` up to, not including, `hi`.
pub open spec fn channel_total(view: BufferView, measure: MeasureModel, c: int, lo: int, hi: int) -> int
    decreases hi - lo,
{
    if hi <= lo {
        0
    } else {
        channel_total(view, measure, c, lo, hi - 1) + term(view, measure, hi - 1, c)
    }
}

/// The totals of all four channels over the pixels from `lo` up to `hi`.
pub open spec fn tally(view: BufferView, measure: MeasureModel, lo: int, hi: int) -> Channels {
    Channels {
        r: channel_total(view, measure, 0, lo, hi),
        g: channel_total(view, measure, 1, lo, hi),
        b: channel_total(view, measure, 2, lo, hi),
        a: channel_total(view, measure, 3, lo, hi),
    }
}

/// The mean of every channel, rounded down; zero for an image without pixels.
pub open spec fn mean_of(view: BufferView) -> Channels {
    if view.pixels() == 0 {
        Channels::zero()
    } else {
        tally(view, MeasureModel::Samples, 0, view.pixels() as int).over(view.pixels() as int)
    }
}

/// The variance of every channel around `mean_of`, rounded down; zero for an
/// image without pixels.
pub open spec fn variance_of(view: BufferView, deviation: Deviation) -> Channels {
    if view.pixels() == 0 {
        Channels::zero()
    } else {
        tally(
            view,
            MeasureModel::SquaredDeviation { mean: mean_of(view), deviation },
            0,
            view.pixels() as int,
        ).over(view.pixels() as int)
    }
}

/// Mean and variance of every channel of one image.
#[derive(Clone, Copy, Debug, PartialEq, Eq, Structural)]
pub struct ChannelStatistics {
    pub mean: Pixel,
    pub variance: Pixel,
}

/// A total over two neighbouring runs of pixels is the sum of the two totals.
pub proof fn lemma_total_splits(
    view: BufferView,
    measure: MeasureModel,
    c: int,
    lo: int,
    mid: int,
    hi: int,
)
    requires
        lo <= mid <= hi,
    ensures
        channel_total(view, measure, c, lo, hi) == channel_total(view, measure, c, lo, mid)
            + channel_total(view, measure, c, mid, hi),
    decreases hi - mid,
{
    if mid < hi {
        lemma_total_splits(view, measure, c, lo, mid, hi - 1);
    }
}

/// In a well-formed buffer no pixel adds a negative amount, nor more than the
/// largest square.
pub proof fn lemma_term_bounds(view: BufferView, measure: MeasureModel, p: int, c: int)
    requires
        view.wf(),
        measure.bounded(),
        0 <= p < view.pixels(),
    ensures
        0 <= term(view, measure, p, c) <= SQUARE_MAX,
        measure is Samples ==> term(view, measure, p, c) <= view.layout.ceiling(),
{
    let s = sample_of(view, p, c);
    if 0 <= c < view.channels() {
        lemma_pixel_inside(view, p, c);
    }
    assert(0 <= s <= view.layout.ceiling() <= 65535);
    match measure {
        MeasureModel::Samples => {},
        MeasureModel::SquaredDeviation { mean, deviation } => {
            let m = mean.channel(c);
            assert(0 <= m <= 65535);
            assert(0 <= (s - m) * (s - m) <= 65535 * 65535) by (nonlinear_arith)
                requires
                    0 <= s <= 65535,
                    0 <= m <= 65535,
            ;
            assert((m - s) * (m - s) == (s - m) * (s - m)) by (nonlinear_arith);
        },
    }
}

/// A total over a run of pixels is not negative and at most the length of the
/// run times the largest term.
pub proof fn lemma_total_bounds(view: BufferView, measure: MeasureModel, c: int, lo: int, hi: int)
    requires
        view.wf(),
        measure.bounded(),
        0 <= lo <= hi <= view.pixels(),
    ensures
        0 <= channel_total(view, measure, c, lo, hi) <= (hi - lo) * SQUARE_MAX,
        measure is Samples ==> channel_total(view, measure, c, lo, hi) <= (hi - lo)
            * view.layout.ceiling(),
    decreases hi - lo,
{
    if lo < hi {
        lemma_total_bounds(view, measure, c, lo, hi - 1);
        lemma_term_bounds(view, measure, hi - 1, c);
        let cap = SQUARE_MAX as int;
        let top = view.layout.ceiling() as int;
        assert((hi - 1 - lo) * cap + cap == (hi - lo) * cap) by (nonlinear_arith);
        assert((hi - 1 - lo) * top + top == (hi - lo) * top) by (nonlinear_arith);
    }
}

/// The mean of a well-formed buffer is a value that a sample can take.
pub proof fn lemma_mean_bounded(view: BufferView)
    requires
        view.wf(),
    ensures
        mean_of(view).within(view.layout.ceiling() as int),
        mean_of(view).within(SAMPLE_MAX as int),
{
    let n = view.pixels() as int;
    if n > 0 {
        let top = view.layout.ceiling() as int;
        assert forall|c: int| 0 <= #[trigger] channel_total(view, MeasureModel::Samples, c, 0, n) / n
            <= top by {
            lemma_total_bounds(view, MeasureModel::Samples, c, 0, n);
            let t = channel_total(view, MeasureModel::Samples, c, 0, n);
            assert(0 <= t / n <= top) by (nonlinear_arith)
                requires
                    0 <= t <= n * top,
                    n > 0,
            ;
        }
        assert(0 <= channel_total(view, MeasureModel::Samples, 0, 0, n) / n <= top);
        assert(0 <= channel_total(view, MeasureModel::Samples, 1, 0, n) / n <= top);
        assert(0 <= channel_total(view, MeasureModel::Samples, 2, 0, n) / n <= top);
        assert(0 <= channel_total(view, MeasureModel::Samples, 3, 0, n) / n <= top);
    }
}

/// What pixel `p` adds to channel `c`.
fn channel_term(image: &PixelBuffer, measure: &Measure, p: usize, c: usize) -> (t: u128)
    requires
        p < image@.pixels(),
        c < 4,
        measure@.bounded(),
    ensures
        t == term(image@, measure@, p as int, c as int),
        t <= SQUARE_MAX,
{
    let layout = image.layout();
    proof {
        lemma_term_bounds(image@, measure@, p as int, c as int);
    }
    let s: u128 = if c < layout.channel_count() {
        image.sample(p, c) as u128
    } else {
        0
    };
    match measure {
        Measure::Samples => s,
        Measure::SquaredDeviation { mean, deviation } => {
            let m: u128 = if c == 0 {
                mean.r
            } else if c == 1 {
                mean.g
            } else if c == 2 {
                mean.b
            } else {
                mean.a
            };
            if s >= m {
                (s - m) * (s - m)
            } else {
                match deviation {
                    Deviation::Exact => {
                        assert((m - s) * (m - s) <= 65535 * 65535) by (nonlinear_arith)
                            requires
                                0 <= s < m <= 65535,
                        ;
                        (m - s) * (m - s)
                    },
                    Deviation::ClampedBelowMean => 0,
                }
            }
        },
    }
}

/// The totals of `measure` over the pixels from `lo` up to, not including,
/// `hi`, added up one pixel after the other.
pub fn partial(image: &PixelBuffer, measure: &Measure, lo: usize, hi: usize) -> (out: Pixel)
    requires
        lo <= hi <= image@.pixels(),
        measure@.bounded(),
    ensures
        out@ == tally(image@, measure@, lo as int, hi as int),
{
    let n = image.pixel_count();
    let mut out = Pixel::zero();
    let mut p: usize = lo;
    while p < hi
        invariant
            lo <= p <= hi <= image@.pixels(),
            image@.wf(),
            measure@.bounded(),
            out@ == tally(image@, measure@, lo as int, p as int),
        decreases hi - p,
    {
        proof {
            lemma_total_bounds(image@, measure@, 0, lo as int, p as int);
            lemma_total_bounds(image@, measure@, 1, lo as int, p as int);
            lemma_total_bounds(image@, measure@, 2, lo as int, p as int);
            lemma_total_bounds(image@, measure@, 3, lo as int, p as int);
            assert((p - lo) * SQUARE_MAX <= 0x1_0000_0000_0000_0000 * SQUARE_MAX)
                by (nonlinear_arith)
                requires
                    0 <= p - lo <= 0x1_0000_0000_0000_0000,
            ;
        }
        let r = channel_term(image, measure, p, 0);
        let g = channel_term(image, measure, p, 1);
        let b = channel_term(image, measure, p, 2);
        let a = channel_term(image, measure, p, 3);
        out = Pixel { r: out.r + r, g: out.g + g, b: out.b + b, a: out.a + a };
        p += 1;
    }
    out
}

/// Whether `cuts` are the ends of neighbouring runs of pixels: each run
/// begins where the one before it ends.
pub open spec fn ascending(cuts: Seq<int>) -> bool {
    &&& cuts.len() >= 1
    &&& forall|i: int| 0 <= i < cuts.len() - 1 ==> #[trigger] cuts[i] <= cuts[i + 1]
}

/// Whether `parts` are the totals of the runs between `cuts`, one for each.
pub open spec fn totals_between(
    view: BufferView,
    measure: MeasureModel,
    cuts: Seq<int>,
    parts: Seq<Channels>,
) -> bool {
    &&& cuts.len() == parts.len() + 1
    &&& forall|i: int|
        0 <= i < parts.len() ==> #[trigger] parts[i] == tally(view, measure, cuts[i], cuts[i + 1])
}

/// However a run of pixels is cut into neighbouring chunks, the totals of the
/// first `k` chunks add up to the total over the pixels that they cover.
pub proof fn lemma_partial_totals_add_up(
    view: BufferView,
    measure: MeasureModel,
    cuts: Seq<int>,
    parts: Seq<Channels>,
    k: int,
)
    requires
        ascending(cuts),
        totals_between(view, measure, cuts, parts),
        0 <= k <= parts.len(),
    ensures
        Channels::sum(parts, k) == tally(view, measure, cuts[0], cuts[k]),
        cuts[0] <= cuts[k],
    decreases k,
{
    if k > 0 {
        lemma_partial_totals_add_up(view, measure, cuts, parts, k - 1);
        assert(cuts[k - 1] <= cuts[k - 1 + 1]);
        assert(parts[k - 1] == tally(view, measure, cuts[k - 1], cuts[k - 1 + 1]));
        lemma_total_splits(view, measure, 0, cuts[0], cuts[k - 1], cuts[k]);
        lemma_total_splits(view, measure, 1, cuts[0], cuts[k - 1], cuts[k]);
        lemma_total_splits(view, measure, 2, cuts[0], cuts[k - 1], cuts[k]);
        lemma_total_splits(view, measure, 3, cuts[0], cuts[k - 1], cuts[k]);
    }
}

/// Mean and variance do not depend on how the pixels are cut into chunks:
/// whatever neighbouring chunks the pixels of an image are cut into, the
/// partial sums of the samples add up to what gives the mean, and the partial
/// sums of the squared deviations from that mean add up to what gives the
/// variance.
pub proof fn lemma_statistics_from_any_chunks(
    view: BufferView,
    deviation: Deviation,
    cuts: Seq<int>,
    sums: Seq<Channels>,
    squares: Seq<Channels>,
)
    requires
        view.pixels() > 0,
        ascending(cuts),
        cuts[0] == 0,
        cuts[cuts.len() - 1] == view.pixels(),
        totals_between(view, MeasureModel::Samples, cuts, sums),
        totals_between(
            view,
            MeasureModel::SquaredDeviation {
                mean: Channels::sum(sums, sums.len() as int).over(view.pixels() as int),
                deviation,
            },
            cuts,
            squares,
        ),
    ensures
        Channels::sum(sums, sums.len() as int).over(view.pixels() as int) == mean_of(view),
        Channels::sum(squares, squares.len() as int).over(view.pixels() as int) == variance_of(
            view,
            deviation,
        ),
{
    lemma_partial_totals_add_up(view, MeasureModel::Samples, cuts, sums, sums.len() as int);
    lemma_partial_totals_add_up(
        view,
        MeasureModel::SquaredDeviation { mean: mean_of(view), deviation },
        cuts,
        squares,
        squares.len() as int,
    );
}

/// The totals of `measure` over the whole image. The pixels are cut into
/// chunks of `step`, the chunks are summed on the thread pool, and the partial
/// totals are added up.
fn total(image: &PixelBuffer, measure: &Measure, step: usize) -> (out: Pixel)
    requires
        step > 0,
        measure@.bounded(),
    ensures
        out@ == tally(image@, measure@, 0, image@.pixels() as int),
{
    let n = image.pixel_count();
    let chunks = chunk_count(n, step);
    let sum_chunk = |i: usize| -> (part: Pixel)
        requires
            i < chunks,
        ensures
            part@ == tally(
                image@,
                measure@,
                chunk_start(i as int, step as int, n as int),
                chunk_start(i + 1, step as int, n as int),
            ),
        {
            let (lo, hi) = chunk_range(i, step, n);
            partial(image, measure, lo, hi)
        };
    let parts = par_map(chunks, sum_chunk);
    proof {
        let all = views(parts@);
        let (s, m) = (step as int, n as int);
        let cuts = Seq::new((chunks + 1) as nat, |i: int| chunk_start(i, s, m));
        lemma_chunks_cover(m, s);
        assert forall|i: int| 0 <= i < all.len() implies #[trigger] all[i] == tally(
            image@,
            measure@,
            cuts[i],
            cuts[i + 1],
        ) by {
            assert(call_ensures(sum_chunk, (i as usize,), parts@[i]));
        }
        assert forall|i: int| 0 <= i < cuts.len() - 1 implies #[trigger] cuts[i] <= cuts[i + 1] by {
            assert(chunk_start(i, s, m) <= chunk_start(i + 1, s, m));
        }
        lemma_partial_totals_add_up(image@, measure@, cuts, all, chunks as int);
        lemma_whole_tally_fits(image@, measure@);
    }
    Pixel::sum(&parts)
}

/// The totals over a whole well-formed buffer fit in a `Pixel`.
proof fn lemma_whole_tally_fits(view: BufferView, measure: MeasureModel)
    requires
        view.wf(),
        measure.bounded(),
        view.pixels() <= usize::MAX,
    ensures
        tally(view, measure, 0, view.pixels() as int).within(u128::MAX as int),
{
    let n = view.pixels() as int;
    lemma_total_bounds(view, measure, 0, 0, n);
    lemma_total_bounds(view, measure, 1, 0, n);
    lemma_total_bounds(view, measure, 2, 0, n);
    lemma_total_bounds(view, measure, 3, 0, n);
    assert(n * SQUARE_MAX <= 0x1_0000_0000_0000_0000 * SQUARE_MAX) by (nonlinear_arith)
        requires
            0 <= n <= 0x1_0000_0000_0000_0000,
    ;
}

/// Mean and variance of every channel of `image`, with the pixels handed to
/// the thread pool in chunks of `chunk_pixels`. The chunk length has no
/// influence on the result; zero is read as one pixel.
pub fn get_image_statistics_in_chunks(
    image: &PixelBuffer,
    deviation: Deviation,
    chunk_pixels: usize,
) -> (stats: ChannelStatistics)
    ensures
        stats.mean@ == mean_of(image@),
        stats.variance@ == variance_of(image@, deviation),
{
    let n = image.pixel_count();
    if n == 0 {
        return ChannelStatistics { mean: Pixel::zero(), variance: Pixel::zero() };
    }
    let step: usize = if chunk_pixels == 0 {
        1
    } else {
        chunk_pixels
    };
    let sums = total(image, &Measure::Samples, step);
    let mean = sums.div(n as u128);
    proof {
        lemma_mean_bounded(image@);
    }
    let squares = total(image, &Measure::SquaredDeviation { mean, deviation }, step);
    let variance = squares.div(n as u128);
    ChannelStatistics { mean, variance }
}

/// Mean and variance of every channel of `image`.
pub fn get_image_statistics(image: &PixelBuffer, deviation: Deviation) -> (stats:
    ChannelStatistics)
    ensures
        stats.mean@ == mean_of(image@),
        stats.variance@ == variance_of(image@, deviation),
{
    get_image_statistics_in_chunks(image, deviation, CHUNK_PIXELS)
}

} // verus!
