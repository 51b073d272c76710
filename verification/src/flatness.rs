//! What the statistics say of the two extremes: an image of one colour, and an
//! image whose samples are spread evenly over all the values they can take.

use crate::buffer::{lemma_pixel_inside, BufferView};
use crate::classify::{is_flat, verdict_of, Mode, Reason, Verdict, VARIANCE_THRESHOLD};
use crate::pixel::Channels;
use crate::stats::{
    channel_total, mean_of, sample_of, squared_deviation, variance_of, Deviation, MeasureModel,
};
use vstd::prelude::*;

verus! {

/// Whether every pixel has the samples of the first one.
pub open spec fn one_color(view: BufferView) -> bool {
    forall|p: int, c: int|
        0 <= p < view.pixels() && 0 <= c < 4 ==> #[trigger] sample_of(view, p, c) == sample_of(
            view,
            0,
            c,
        )
}

/// In an image of one colour the samples of a channel add up to the number of
/// pixels times the sample of the first.
proof fn lemma_one_color_sum(view: BufferView, c: int, hi: int)
    requires
        one_color(view),
        0 <= c < 4,
        0 <= hi <= view.pixels(),
    ensures
        channel_total(view, MeasureModel::Samples, c, 0, hi) == hi * sample_of(view, 0, c),
    decreases hi,
{
    if hi > 0 {
        lemma_one_color_sum(view, c, hi - 1);
        let s = sample_of(view, 0, c);
        let before = channel_total(view, MeasureModel::Samples, c, 0, hi - 1);
        assert(sample_of(view, hi - 1, c) == s);
        assert(before + s == hi * s) by (nonlinear_arith)
            requires
                before == (hi - 1) * s,
        ;
    } else {
        assert(0 * sample_of(view, 0, c) == 0);
    }
}

/// Where every sample of a channel is the mean, the squared deviations add up
/// to nothing.
proof fn lemma_no_deviation(view: BufferView, mean: Channels, deviation: Deviation, c: int, hi: int)
    requires
        one_color(view),
        0 <= c < 4,
        0 <= hi <= view.pixels(),
        mean.channel(c) == sample_of(view, 0, c),
    ensures
        channel_total(view, MeasureModel::SquaredDeviation { mean, deviation }, c, 0, hi) == 0,
    decreases hi,
{
    if hi > 0 {
        lemma_no_deviation(view, mean, deviation, c, hi - 1);
        let s = sample_of(view, hi - 1, c);
        let m = mean.channel(c);
        assert(s == sample_of(view, 0, c));
        assert((s - m) * (s - m) == 0) by (nonlinear_arith)
            requires
                s == m,
        ;
        assert(squared_deviation(s, m, deviation) == 0);
    }
}

/// An image of one colour has that colour as its mean and no variance in any
/// channel, however its deviations are taken.
pub proof fn lemma_one_color_has_no_variance(view: BufferView, deviation: Deviation)
    requires
        one_color(view),
    ensures
        variance_of(view, deviation) == Channels::zero(),
        view.pixels() > 0 ==> forall|c: int|
            0 <= c < 4 ==> #[trigger] mean_of(view).channel(c) == sample_of(view, 0, c),
{
    let n = view.pixels() as int;
    if n > 0 {
        let mean = mean_of(view);
        assert forall|c: int| 0 <= c < 4 implies #[trigger] mean.channel(c) == sample_of(
            view,
            0,
            c,
        ) by {
            lemma_one_color_sum(view, c, n);
            let s = sample_of(view, 0, c);
            assert((n * s) / n == s) by (nonlinear_arith)
                requires
                    n > 0,
            ;
        }
        let spread = MeasureModel::SquaredDeviation { mean, deviation };
        assert forall|c: int| 0 <= c < 4 implies channel_total(view, spread, c, 0, n) == 0 by {
            assert(mean.channel(c) == sample_of(view, 0, c));
            lemma_no_deviation(view, mean, deviation, c, n);
        }
        assert(0int / n == 0) by (nonlinear_arith)
            requires
                n > 0,
        ;
    }
}

/// An image of one colour is deleted as a solid colour under every threshold
/// above zero, unless its channels come blue first.
pub proof fn lemma_one_color_is_deleted(view: BufferView, threshold: u32, deviation: Deviation)
    requires
        one_color(view),
        threshold > 0,
        !view.layout.reversed(),
    ensures
        is_flat(view, threshold as int, deviation),
        verdict_of(view, Mode::Flatness { threshold, deviation }) == Verdict::Delete(
            Reason::SolidColor,
        ),
{
    lemma_one_color_has_no_variance(view, deviation);
}

/// The number of pixels before `hi` whose channel `c` holds the value `v`.
pub open spec fn occurrences(view: BufferView, c: int, v: int, hi: int) -> int
    decreases hi,
{
    if hi <= 0 {
        0
    } else {
        occurrences(view, c, v, hi - 1) + if sample_of(view, hi - 1, c) == v {
            1int
        } else {
            0int
        }
    }
}

/// Whether channel `c` takes every value that a sample of the layout can
/// take, each of them in `times` pixels.
pub open spec fn evenly_spread(view: BufferView, c: int, times: int) -> bool {
    &&& times > 0
    &&& forall|v: int|
        0 <= v <= view.layout.ceiling() ==> #[trigger] occurrences(
            view,
            c,
            v,
            view.pixels() as int,
        ) == times
}

/// The sum of `f` over the samples of channel `c` in the pixels before `hi`.
spec fn pixel_sum(view: BufferView, c: int, f: spec_fn(int) -> int, hi: int) -> int
    decreases hi,
{
    if hi <= 0 {
        0
    } else {
        pixel_sum(view, c, f, hi - 1) + f(sample_of(view, hi - 1, c))
    }
}

/// The sum of `f` over the values below `m`, each counted as often as it
/// occurs in channel `c` of the pixels before `hi`.
spec fn value_sum(view: BufferView, c: int, f: spec_fn(int) -> int, m: int, hi: int) -> int
    decreases m,
{
    if m <= 0 {
        0
    } else {
        value_sum(view, c, f, m - 1, hi) + occurrences(view, c, m - 1, hi) * f(m - 1)
    }
}

/// The sum of `f` over the values below `m`.
spec fn plain_sum(f: spec_fn(int) -> int, m: int) -> int
    decreases m,
{
    if m <= 0 {
        0
    } else {
        plain_sum(f, m - 1) + f(m - 1)
    }
}

/// One for every value.
spec fn one() -> spec_fn(int) -> int {
    |v: int| 1int
}

/// Every value itself.
spec fn itself() -> spec_fn(int) -> int {
    |v: int| v
}

/// Sixty-four for a value that lies eight or more above `mean`, nothing for
/// any other: a lower bound of its squared deviation.
spec fn far_above(mean: int) -> spec_fn(int) -> int {
    |v: int|
        if v >= mean + 8 {
            64int
        } else {
            0int
        }
}

/// One more pixel adds to the sum over the values what `f` gives for its
/// sample, as long as the sample lies below `m`.
proof fn lemma_one_more_pixel(view: BufferView, c: int, f: spec_fn(int) -> int, m: int, hi: int)
    requires
        hi > 0,
        m >= 0,
    ensures
        value_sum(view, c, f, m, hi) == value_sum(view, c, f, m, hi - 1) + if 0 <= sample_of(
            view,
            hi - 1,
            c,
        ) < m {
            f(sample_of(view, hi - 1, c))
        } else {
            0
        },
    decreases m,
{
    if m > 0 {
        lemma_one_more_pixel(view, c, f, m - 1, hi);
        let before = occurrences(view, c, m - 1, hi - 1);
        let weight = f(m - 1);
        assert((before + 1) * weight == before * weight + weight) by (nonlinear_arith);
    }
}

/// Without a pixel no value occurs, so the sum over the values is zero.
proof fn lemma_no_pixel_no_value(view: BufferView, c: int, f: spec_fn(int) -> int, m: int)
    requires
        m >= 0,
    ensures
        value_sum(view, c, f, m, 0) == 0,
    decreases m,
{
    if m > 0 {
        lemma_no_pixel_no_value(view, c, f, m - 1);
        assert(0 * f(m - 1) == 0);
    }
}

/// Summing over the pixels is summing over the values, each as often as it
/// occurs.
proof fn lemma_histogram(view: BufferView, c: int, f: spec_fn(int) -> int, m: int, hi: int)
    requires
        hi >= 0,
        m >= 0,
        forall|p: int| 0 <= p < hi ==> 0 <= #[trigger] sample_of(view, p, c) < m,
    ensures
        pixel_sum(view, c, f, hi) == value_sum(view, c, f, m, hi),
    decreases hi,
{
    if hi > 0 {
        lemma_histogram(view, c, f, m, hi - 1);
        lemma_one_more_pixel(view, c, f, m, hi);
        assert(0 <= sample_of(view, hi - 1, c) < m);
    } else {
        lemma_no_pixel_no_value(view, c, f, m);
    }
}

/// Where every value occurs `times` times, the sum over the values is
/// `times` times the plain sum of `f`.
proof fn lemma_even_values(
    view: BufferView,
    c: int,
    f: spec_fn(int) -> int,
    m: int,
    hi: int,
    times: int,
)
    requires
        m >= 0,
        forall|v: int| 0 <= v < m ==> #[trigger] occurrences(view, c, v, hi) == times,
    ensures
        value_sum(view, c, f, m, hi) == times * plain_sum(f, m),
    decreases m,
{
    if m > 0 {
        lemma_even_values(view, c, f, m - 1, hi, times);
        let rest = plain_sum(f, m - 1);
        let last = f(m - 1);
        assert(occurrences(view, c, m - 1, hi) == times);
        assert(times * rest + times * last == times * (rest + last)) by (nonlinear_arith);
    } else {
        assert(times * 0 == 0);
    }
}

/// One for every pixel adds up to the number of pixels.
proof fn lemma_count_of_pixels(view: BufferView, c: int, hi: int)
    requires
        hi >= 0,
    ensures
        pixel_sum(view, c, one(), hi) == hi,
    decreases hi,
{
    if hi > 0 {
        lemma_count_of_pixels(view, c, hi - 1);
    }
}

/// One for every value adds up to the number of values.
proof fn lemma_count_of_values(m: int)
    requires
        m >= 0,
    ensures
        plain_sum(one(), m) == m,
    decreases m,
{
    if m > 0 {
        lemma_count_of_values(m - 1);
    }
}

/// The samples themselves add up to the total of the samples.
proof fn lemma_sum_of_samples(view: BufferView, c: int, hi: int)
    requires
        hi >= 0,
    ensures
        pixel_sum(view, c, itself(), hi) == channel_total(view, MeasureModel::Samples, c, 0, hi),
    decreases hi,
{
    if hi > 0 {
        lemma_sum_of_samples(view, c, hi - 1);
    }
}

/// The values below `m` add up to half of `m` times `m - 1`.
proof fn lemma_sum_of_values(m: int)
    requires
        m >= 0,
    ensures
        2 * plain_sum(itself(), m) == m * (m - 1),
    decreases m,
{
    if m > 0 {
        lemma_sum_of_values(m - 1);
        let before = plain_sum(itself(), m - 1);
        assert(2 * (before + (m - 1)) == m * (m - 1)) by (nonlinear_arith)
            requires
                2 * before == (m - 1) * ((m - 1) - 1),
        ;
    } else {
        assert(0 * (0 - 1) == 0);
    }
}

/// The squared deviations add up to no less than sixty-four for every sample
/// that lies eight or more above the mean.
proof fn lemma_deviations_far_above(
    view: BufferView,
    mean: Channels,
    deviation: Deviation,
    c: int,
    hi: int,
)
    requires
        hi >= 0,
    ensures
        channel_total(view, MeasureModel::SquaredDeviation { mean, deviation }, c, 0, hi)
            >= pixel_sum(view, c, far_above(mean.channel(c)), hi),
    decreases hi,
{
    if hi > 0 {
        lemma_deviations_far_above(view, mean, deviation, c, hi - 1);
        let s = sample_of(view, hi - 1, c);
        let m = mean.channel(c);
        assert((s - m) * (s - m) >= 0 && (m - s) * (m - s) >= 0) by (nonlinear_arith);
        if s >= m + 8 {
            assert((s - m) * (s - m) >= 64) by (nonlinear_arith)
                requires
                    s - m >= 8,
            ;
        }
        assert(squared_deviation(s, m, deviation) >= far_above(m)(s));
    }
}

/// Of the values below `m`, those eight or more above `mean` give sixty-four
/// each.
proof fn lemma_values_far_above(mean: int, m: int)
    requires
        0 <= mean + 8 <= m,
    ensures
        plain_sum(far_above(mean), m) == 64 * (m - mean - 8),
    decreases m,
{
    if m > mean + 8 {
        lemma_values_far_above(mean, m - 1);
    } else {
        lemma_nothing_below(mean, m);
    }
}

/// No value below `mean + 8` gives anything.
proof fn lemma_nothing_below(mean: int, m: int)
    requires
        m <= mean + 8,
    ensures
        plain_sum(far_above(mean), m) == 0,
    decreases m,
{
    if m > 0 {
        lemma_nothing_below(mean, m - 1);
    }
}

/// A channel whose samples are spread evenly over all the values they can take
/// has its mean in the middle of them and a variance above the default
/// threshold, however the deviations are taken.
pub proof fn lemma_evenly_spread_varies(view: BufferView, deviation: Deviation, c: int, times: int)
    requires
        view.wf(),
        0 <= c < view.channels(),
        evenly_spread(view, c, times),
    ensures
        view.pixels() == times * (view.layout.ceiling() + 1),
        2 * mean_of(view).channel(c) == view.layout.ceiling() - 1,
        variance_of(view, deviation).channel(c) > VARIANCE_THRESHOLD,
{
    let n = view.pixels() as int;
    let m = view.layout.ceiling() as int + 1;
    let h = m / 2;
    assert(m == 256 || m == 65536);
    assert forall|p: int| 0 <= p < n implies 0 <= #[trigger] sample_of(view, p, c) < m by {
        lemma_pixel_inside(view, p, c);
    }
    assert forall|v: int| 0 <= v < m implies #[trigger] occurrences(view, c, v, n) == times by {}
    // the number of pixels
    lemma_histogram(view, c, one(), m, n);
    lemma_even_values(view, c, one(), m, n, times);
    lemma_count_of_pixels(view, c, n);
    lemma_count_of_values(m);
    assert(n == times * m);
    assert(n > 0) by (nonlinear_arith)
        requires
            n == times * m,
            times > 0,
            m > 0,
    ;
    // the mean
    let sum = channel_total(view, MeasureModel::Samples, c, 0, n);
    lemma_histogram(view, c, itself(), m, n);
    lemma_even_values(view, c, itself(), m, n, times);
    lemma_sum_of_samples(view, c, n);
    lemma_sum_of_values(m);
    let values = plain_sum(itself(), m);
    assert(sum == times * values);
    assert(sum == n * (h - 1) + times * h && 0 <= times * h < n) by (nonlinear_arith)
        requires
            sum == times * values,
            2 * values == m * (m - 1),
            m == 2 * h,
            n == times * m,
            times > 0,
            h > 0,
    ;
    assert(sum / n == h - 1) by (nonlinear_arith)
        requires
            sum == n * (h - 1) + times * h,
            0 <= times * h < n,
    ;
    let mean = mean_of(view);
    assert(mean.channel(c) == sum / n);
    // the variance
    let spread = MeasureModel::SquaredDeviation { mean, deviation };
    let squares = channel_total(view, spread, c, 0, n);
    let far = far_above(h - 1);
    lemma_deviations_far_above(view, mean, deviation, c, n);
    lemma_histogram(view, c, far, m, n);
    lemma_even_values(view, c, far, m, n, times);
    lemma_values_far_above(h - 1, m);
    assert(squares >= times * (64 * (m - (h - 1) - 8)));
    assert(squares >= 21 * n) by (nonlinear_arith)
        requires
            squares >= times * (64 * (m - (h - 1) - 8)),
            m == 2 * h,
            h >= 128,
            n == times * m,
            times > 0,
    ;
    assert(squares / n >= 21) by (nonlinear_arith)
        requires
            squares >= 21 * n,
            n > 0,
    ;
    assert(variance_of(view, deviation).channel(c) == squares / n);
}

/// An image whose every channel is spread evenly over all the values that its
/// samples can take is kept under the default threshold.
pub proof fn lemma_evenly_spread_is_kept(view: BufferView, deviation: Deviation, times: int)
    requires
        view.wf(),
        forall|c: int| 0 <= c < view.channels() ==> evenly_spread(view, c, times),
    ensures
        forall|c: int|
            0 <= c < view.channels() ==> #[trigger] variance_of(view, deviation).channel(c)
                > VARIANCE_THRESHOLD,
        !is_flat(view, VARIANCE_THRESHOLD as int, deviation),
        verdict_of(view, Mode::Flatness { threshold: VARIANCE_THRESHOLD, deviation })
            == Verdict::Keep,
{
    assert forall|c: int| 0 <= c < view.channels() implies #[trigger] variance_of(
        view,
        deviation,
    ).channel(c) > VARIANCE_THRESHOLD by {
        lemma_evenly_spread_varies(view, deviation, c, times);
    }
    assert(variance_of(view, deviation).channel(0) > VARIANCE_THRESHOLD);
}

} // verus!
