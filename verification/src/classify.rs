//! The threshold policy: which images are kept and which are deleted, and why.

use crate::buffer::{fills, BufferView, PixelBuffer};
use crate::color_match::{
    exceeds_share, lemma_all_match, match_count, pixel_matches, ColorMatch, TargetColor,
    FULL_QUANTITY,
};
use crate::layout::ChannelLayout;
use crate::stats::{
    channel_total, get_image_statistics_in_chunks, mean_of, variance_of, Deviation, MeasureModel,
    CHUNK_PIXELS,
};
use vstd::prelude::*;

verus! {

/// The variance below which a channel counts as flat, unless configured.
pub const VARIANCE_THRESHOLD: u32 = 20;

/// The share of an image, in hundredths of a percent, above which a target
/// colour condemns it, unless configured: eighty percent.
pub const QUANTITY_THRESHOLD: u32 = 8000;

/// Why an image is deleted.
#[derive(Clone, Copy, Debug, PartialEq, Eq, Structural)]
pub enum Reason {
    /// The file could not be read as an image.
    DecodeFailure,
    /// The pixels are in a layout that is not understood.
    UnsupportedLayout,
    /// Every channel is flat.
    SolidColor,
    /// Too much of the image is of one of the target colours.
    TargetColorMatch,
}

/// What is to become of one file.
#[derive(Clone, Copy, Debug, PartialEq, Eq, Structural)]
pub enum Verdict {
    Keep,
    Delete(Reason),
}

impl Verdict {
    /// Whether the file is to be deleted.
    pub fn is_delete(&self) -> (yes: bool)
        ensures
            yes == (*self is Delete),
    {
        match self {
            Verdict::Keep => false,
            Verdict::Delete(_) => true,
        }
    }
}

/// A colour and the share of an image that it may fill, in hundredths of a
/// percent.
#[derive(Clone, Copy, Debug, PartialEq, Eq)]
pub struct TargetRule {
    pub color: TargetColor,
    pub threshold: u32,
}

/// How images are measured.
#[derive(Clone, Debug, PartialEq, Eq)]
pub enum Mode {
    /// By the variance of every channel: an image is deleted when all its
    /// channels lie below `threshold`.
    Flatness { threshold: u32, deviation: Deviation },
    /// By the share of given colours: an image is deleted when one of the
    /// colours fills more of it than its rule allows.
    TargetColors { rules: Vec<TargetRule> },
}

/// The settings of a cleaning run.
#[derive(Clone, Debug, PartialEq, Eq)]
pub struct Config {
    pub mode: Mode,
    /// The number of pixels that one task of the thread pool works on; zero
    /// is read as one. It has no influence on any verdict.
    pub chunk_pixels: usize,
}

/// Whether every channel that the layout has varies less than `threshold`.
pub open spec fn is_flat(view: BufferView, threshold: int, deviation: Deviation) -> bool {
    let variance = variance_of(view, deviation);
    &&& variance.r < threshold
    &&& variance.g < threshold
    &&& variance.b < threshold
    &&& view.layout.alpha() ==> variance.a < threshold
}

/// Whether `rule` condemns the image: its colour fills more than its
/// threshold allows.
pub open spec fn rule_exceeded(view: BufferView, rule: TargetRule) -> bool {
    exceeds_share(
        match_count(view, rule.color, 0, view.pixels() as int),
        view.pixels() as int,
        rule.threshold as int,
    )
}

/// Whether one of `rules` condemns the image.
pub open spec fn any_rule_exceeded(view: BufferView, rules: Seq<TargetRule>) -> bool {
    exists|i: int| 0 <= i < rules.len() && rule_exceeded(view, #[trigger] rules[i])
}

/// The verdict on a well-formed buffer.
///
/// An image whose channels come blue first is kept without being measured:
/// its channels are not put in order, so nothing is concluded from them.
pub open spec fn verdict_of(view: BufferView, mode: Mode) -> Verdict {
    if view.layout.reversed() {
        Verdict::Keep
    } else {
        match mode {
            Mode::Flatness { threshold, deviation } => if is_flat(
                view,
                threshold as int,
                deviation,
            ) {
                Verdict::Delete(Reason::SolidColor)
            } else {
                Verdict::Keep
            },
            Mode::TargetColors { rules } => if any_rule_exceeded(view, rules@) {
                Verdict::Delete(Reason::TargetColorMatch)
            } else {
                Verdict::Keep
            },
        }
    }
}

/// The verdict on samples as they come out of a decoder: deleted as an
/// unsupported layout unless they are the pixels of an image in an understood
/// layout, and judged as that image otherwise.
pub open spec fn verdict_of_raw(
    width: nat,
    height: nat,
    layout: ChannelLayout,
    samples: Seq<u16>,
    mode: Mode,
) -> Verdict {
    if fills(width, height, layout, samples) {
        verdict_of(BufferView { width, height, layout, samples }, mode)
    } else {
        Verdict::Delete(Reason::UnsupportedLayout)
    }
}

/// A layout without alpha has neither a mean nor a variance in that channel.
pub proof fn lemma_no_alpha_no_variance(view: BufferView, deviation: Deviation)
    requires
        !view.layout.alpha(),
    ensures
        mean_of(view).a == 0,
        variance_of(view, deviation).a == 0,
{
    let n = view.pixels() as int;
    if n > 0 {
        lemma_absent_channel_totals(view, MeasureModel::Samples, 0, n);
        assert(0int / n == 0) by (nonlinear_arith)
            requires
                n > 0,
        ;
        let spread = MeasureModel::SquaredDeviation { mean: mean_of(view), deviation };
        lemma_absent_channel_totals(view, spread, 0, n);
    }
}

/// A channel that the layout lacks adds nothing to a total, as long as the
/// mean of that channel is zero too.
proof fn lemma_absent_channel_totals(view: BufferView, measure: MeasureModel, lo: int, hi: int)
    requires
        !view.layout.alpha(),
        measure matches MeasureModel::SquaredDeviation { mean, .. } ==> mean.a == 0,
    ensures
        channel_total(view, measure, 3, lo, hi) == 0,
    decreases hi - lo,
{
    if lo < hi {
        lemma_absent_channel_totals(view, measure, lo, hi - 1);
    }
}

/// An image with at least one pixel, all of them of the colour of one rule,
/// is deleted for that colour if the rule allows less than the whole image,
/// unless its channels come blue first.
pub proof fn lemma_full_match_is_deleted(view: BufferView, rules: Vec<TargetRule>, i: int)
    requires
        view.pixels() > 0,
        !view.layout.reversed(),
        0 <= i < rules@.len(),
        rules@[i].threshold < FULL_QUANTITY,
        forall|p: int| 0 <= p < view.pixels() ==> pixel_matches(view, rules@[i].color, p),
    ensures
        verdict_of(view, Mode::TargetColors { rules }) == Verdict::Delete(
            Reason::TargetColorMatch,
        ),
{
    let n = view.pixels() as int;
    let t = rules@[i].threshold as int;
    lemma_all_match(view, rules@[i].color, 0, n);
    assert(n * 10000 > t * n) by (nonlinear_arith)
        requires
            n > 0,
            0 <= t < 10000,
    ;
    assert(rule_exceeded(view, rules@[i]));
}

impl Config {
    /// Measures flatness, with the given threshold on the variance.
    pub fn flatness(threshold: u32, deviation: Deviation) -> (config: Config)
        ensures
            config.mode == (Mode::Flatness { threshold, deviation }),
            config.chunk_pixels == CHUNK_PIXELS,
    {
        Config { mode: Mode::Flatness { threshold, deviation }, chunk_pixels: CHUNK_PIXELS }
    }

    /// Looks for the given colours.
    pub fn target_colors(rules: Vec<TargetRule>) -> (config: Config)
        ensures
            config.mode == (Mode::TargetColors { rules }),
            config.chunk_pixels == CHUNK_PIXELS,
    {
        Config { mode: Mode::TargetColors { rules }, chunk_pixels: CHUNK_PIXELS }
    }

    /// Looks for black, white, red, green and blue at full opacity, each of
    /// which may fill eighty percent of an image.
    pub fn known_bad_colors() -> (config: Config)
        ensures
            config.mode matches Mode::TargetColors { rules } && rules@ == palette(),
            config.chunk_pixels == CHUNK_PIXELS,
    {
        let mut rules: Vec<TargetRule> = Vec::new();
        rules.push(TargetRule { color: TargetColor::opaque(0, 0, 0), threshold: QUANTITY_THRESHOLD });
        rules.push(
            TargetRule { color: TargetColor::opaque(255, 255, 255), threshold: QUANTITY_THRESHOLD },
        );
        rules.push(TargetRule { color: TargetColor::opaque(255, 0, 0), threshold: QUANTITY_THRESHOLD });
        rules.push(TargetRule { color: TargetColor::opaque(0, 255, 0), threshold: QUANTITY_THRESHOLD });
        rules.push(TargetRule { color: TargetColor::opaque(0, 0, 255), threshold: QUANTITY_THRESHOLD });
        assert(rules@ =~= palette());
        Config::target_colors(rules)
    }
}

/// An opaque colour and the default threshold on its share.
pub open spec fn default_rule(r: u8, g: u8, b: u8) -> TargetRule {
    TargetRule { color: TargetColor { r, g, b, a: None }, threshold: QUANTITY_THRESHOLD }
}

/// The rules of `Config::known_bad_colors`.
pub open spec fn palette() -> Seq<TargetRule> {
    seq![
        default_rule(0, 0, 0),
        default_rule(255, 255, 255),
        default_rule(255, 0, 0),
        default_rule(0, 255, 0),
        default_rule(0, 0, 255),
    ]
}

impl Default for Config {
    /// Measures flatness with the default threshold and exact deviations.
    fn default() -> (config: Config)
        ensures
            config.mode == (Mode::Flatness {
                threshold: VARIANCE_THRESHOLD,
                deviation: Deviation::Exact,
            }),
            config.chunk_pixels == CHUNK_PIXELS,
    {
        Config::flatness(VARIANCE_THRESHOLD, Deviation::Exact)
    }
}

/// Whether one of `rules` condemns `image`.
fn exceeds_any(image: &PixelBuffer, rules: &Vec<TargetRule>, chunk_pixels: usize) -> (yes: bool)
    ensures
        yes == any_rule_exceeded(image@, rules@),
{
    let mut i: usize = 0;
    while i < rules.len()
        invariant
            i <= rules@.len(),
            forall|j: int| 0 <= j < i ==> !rule_exceeded(image@, #[trigger] rules@[j]),
        decreases rules@.len() - i,
    {
        let rule = &rules[i];
        let found = ColorMatch::measure(image, rule.color, chunk_pixels);
        if found.exceeds(rule.threshold) {
            assert(rule_exceeded(image@, rules@[i as int]));
            return true;
        }
        i += 1;
    }
    false
}

/// Judges one decoded image.
pub fn classify(image: &PixelBuffer, config: &Config) -> (verdict: Verdict)
    ensures
        verdict == verdict_of(image@, config.mode),
{
    let layout = image.layout();
    if layout.is_reversed() {
        return Verdict::Keep;
    }
    match &config.mode {
        Mode::Flatness { threshold, deviation } => {
            let stats = get_image_statistics_in_chunks(image, *deviation, config.chunk_pixels);
            proof {
                if !layout.alpha() {
                    lemma_no_alpha_no_variance(image@, *deviation);
                }
            }
            // without alpha that channel has the variance zero, which lies
            // below every threshold that the variance of another channel
            // lies below
            if stats.variance.is_zero(*threshold) {
                Verdict::Delete(Reason::SolidColor)
            } else {
                Verdict::Keep
            }
        },
        Mode::TargetColors { rules } => {
            if exceeds_any(image, rules, config.chunk_pixels) {
                Verdict::Delete(Reason::TargetColorMatch)
            } else {
                Verdict::Keep
            }
        },
    }
}

/// Judges samples as they come out of a decoder.
pub fn classify_raw(
    width: u32,
    height: u32,
    layout: ChannelLayout,
    samples: Vec<u16>,
    config: &Config,
) -> (verdict: Verdict)
    ensures
        verdict == verdict_of_raw(width as nat, height as nat, layout, samples@, config.mode),
        !layout.supported() ==> verdict == Verdict::Delete(Reason::UnsupportedLayout),
{
    match PixelBuffer::new(width, height, layout, samples) {
        Ok(image) => classify(&image, config),
        Err(_) => Verdict::Delete(Reason::UnsupportedLayout),
    }
}

} // verus!
