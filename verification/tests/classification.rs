use cleanax::buffer::PixelBuffer;
use cleanax::classify::{
    classify, classify_raw, Config, Mode, Reason, TargetRule, Verdict, QUANTITY_THRESHOLD,
    VARIANCE_THRESHOLD,
};
use cleanax::color_match::TargetColor;
use cleanax::layout::ChannelLayout;
use cleanax::pixel::Pixel;
use cleanax::stats::{get_image_statistics, Deviation, CHUNK_PIXELS};

fn image(width: u32, height: u32, layout: ChannelLayout, samples: Vec<u16>) -> PixelBuffer {
    match PixelBuffer::new(width, height, layout, samples) {
        Ok(buffer) => buffer,
        Err(e) => panic!("refused: {:?}", e),
    }
}

fn filled(pixels: u32, pixel: &[u16]) -> Vec<u16> {
    let mut samples: Vec<u16> = Vec::new();
    for _ in 0..pixels {
        samples.extend_from_slice(pixel);
    }
    samples
}

/// Every value of a byte once in every channel, in three different orders.
fn spread_8() -> Vec<u16> {
    let mut samples: Vec<u16> = Vec::new();
    for i in 0..256u32 {
        samples.push(i as u16);
        samples.push(((i * 7 + 3) % 256) as u16);
        samples.push(255 - i as u16);
    }
    samples
}

#[test]
fn defaults() {
    assert_eq!(VARIANCE_THRESHOLD, 20);
    assert_eq!(QUANTITY_THRESHOLD, 8000);
    let config = Config::default();
    assert_eq!(config.mode, Mode::Flatness { threshold: 20, deviation: Deviation::Exact });
    assert_eq!(config.chunk_pixels, CHUNK_PIXELS);
    let palette = Config::known_bad_colors();
    let rule = |r: u8, g: u8, b: u8| TargetRule { color: TargetColor { r, g, b, a: None }, threshold: 8000 };
    assert_eq!(
        palette.mode,
        Mode::TargetColors {
            rules: vec![rule(0, 0, 0), rule(255, 255, 255), rule(255, 0, 0), rule(0, 255, 0), rule(0, 0, 255)]
        }
    );
    assert_eq!(
        Config::flatness(3, Deviation::ClampedBelowMean).mode,
        Mode::Flatness { threshold: 3, deviation: Deviation::ClampedBelowMean }
    );
}

#[test]
fn one_colour_has_no_variance_and_is_deleted() {
    for (layout, pixel) in [
        (ChannelLayout::Rgb8, vec![17u16, 0, 255]),
        (ChannelLayout::Rgba8, vec![17, 0, 255, 128]),
        (ChannelLayout::Rgb16, vec![17, 0, 65535]),
        (ChannelLayout::Rgba16, vec![40000, 1, 65535, 3]),
    ] {
        let buffer = image(10, 10, layout, filled(100, &pixel));
        for deviation in [Deviation::Exact, Deviation::ClampedBelowMean] {
            let stats = get_image_statistics(&buffer, deviation);
            assert_eq!(stats.variance, Pixel { r: 0, g: 0, b: 0, a: 0 });
            assert_eq!(stats.mean.r, pixel[0] as u128);
            for threshold in [1u32, 20, u32::MAX] {
                assert_eq!(
                    classify(&buffer, &Config::flatness(threshold, deviation)),
                    Verdict::Delete(Reason::SolidColor)
                );
            }
            assert_eq!(classify(&buffer, &Config::flatness(0, deviation)), Verdict::Keep);
        }
    }
}

#[test]
fn evenly_spread_samples_vary_and_are_kept() {
    let buffer = image(16, 16, ChannelLayout::Rgb8, spread_8());
    let exact = get_image_statistics(&buffer, Deviation::Exact);
    assert_eq!(exact.mean, Pixel { r: 127, g: 127, b: 127, a: 0 });
    assert_eq!(exact.variance, Pixel { r: 5461, g: 5461, b: 5461, a: 0 });
    let clamped = get_image_statistics(&buffer, Deviation::ClampedBelowMean);
    // the known loss of the clamped deviation: about half of the variance is gone
    assert_eq!(clamped.variance, Pixel { r: 2762, g: 2762, b: 2762, a: 0 });
    assert_eq!(classify(&buffer, &Config::default()), Verdict::Keep);
    assert_eq!(
        classify(&buffer, &Config::flatness(20, Deviation::ClampedBelowMean)),
        Verdict::Keep
    );
    assert_eq!(
        classify(&buffer, &Config::flatness(5462, Deviation::Exact)),
        Verdict::Delete(Reason::SolidColor)
    );
    assert_eq!(classify(&buffer, &Config::flatness(5461, Deviation::Exact)), Verdict::Keep);
}

#[test]
fn evenly_spread_samples_of_sixteen_bits_are_kept() {
    let mut samples: Vec<u16> = Vec::new();
    for i in 0..65536u32 {
        samples.push(i as u16);
        samples.push(65535 - i as u16);
        samples.push(((i * 5 + 1) % 65536) as u16);
    }
    let buffer = image(256, 256, ChannelLayout::Rgb16, samples);
    let stats = get_image_statistics(&buffer, Deviation::Exact);
    assert_eq!(stats.mean, Pixel { r: 32767, g: 32767, b: 32767, a: 0 });
    // (65536 * 65536 - 1) / 12 + 1 / 4, rounded down
    assert_eq!(stats.variance, Pixel { r: 357913941, g: 357913941, b: 357913941, a: 0 });
    assert_eq!(classify(&buffer, &Config::default()), Verdict::Keep);
}

#[test]
fn one_lively_channel_keeps_the_image() {
    let mut samples = filled(4, &[5, 5, 5]);
    samples[4] = 200;
    let buffer = image(2, 2, ChannelLayout::Rgb8, samples);
    assert_eq!(classify(&buffer, &Config::default()), Verdict::Keep);
}

#[test]
fn alpha_counts_where_there_is_one() {
    // the colours are flat, the opacity is not
    let buffer = image(2, 1, ChannelLayout::Rgba8, vec![5, 5, 5, 0, 5, 5, 5, 255]);
    assert_eq!(classify(&buffer, &Config::default()), Verdict::Keep);
    let flat = image(2, 1, ChannelLayout::Rgba8, vec![5, 5, 5, 9, 5, 5, 5, 9]);
    assert_eq!(classify(&flat, &Config::default()), Verdict::Delete(Reason::SolidColor));
    let no_alpha = image(2, 1, ChannelLayout::Rgb8, vec![5, 5, 5, 5, 5, 5]);
    assert_eq!(classify(&no_alpha, &Config::flatness(1, Deviation::Exact)), Verdict::Delete(Reason::SolidColor));
}

#[test]
fn blue_first_layouts_are_kept_unmeasured() {
    let bgr = image(3, 3, ChannelLayout::Bgr8, filled(9, &[0, 0, 0]));
    let bgra = image(3, 3, ChannelLayout::Bgra8, filled(9, &[0, 0, 0, 255]));
    for config in [Config::default(), Config::known_bad_colors()] {
        assert_eq!(classify(&bgr, &config), Verdict::Keep);
        assert_eq!(classify(&bgra, &config), Verdict::Keep);
    }
}

#[test]
fn unsupported_layout_is_deleted() {
    for config in [Config::default(), Config::known_bad_colors()] {
        assert_eq!(
            classify_raw(2, 2, ChannelLayout::Unsupported, vec![1, 2, 3, 4], &config),
            Verdict::Delete(Reason::UnsupportedLayout)
        );
        assert_eq!(
            classify_raw(0, 0, ChannelLayout::Unsupported, vec![], &config),
            Verdict::Delete(Reason::UnsupportedLayout)
        );
        // samples that do not fill the image
        assert_eq!(
            classify_raw(2, 2, ChannelLayout::Rgb8, vec![0; 9], &config),
            Verdict::Delete(Reason::UnsupportedLayout)
        );
    }
    assert_eq!(
        classify_raw(2, 2, ChannelLayout::Rgb8, vec![0; 12], &Config::default()),
        Verdict::Delete(Reason::SolidColor)
    );
    assert!(Verdict::Delete(Reason::DecodeFailure).is_delete());
    assert!(!Verdict::Keep.is_delete());
}

#[test]
fn target_colours_condemn_above_their_threshold_only() {
    let config = Config::known_bad_colors();
    // exactly eighty percent black: not more than the threshold
    let mut samples = filled(8, &[0, 0, 0]);
    samples.extend(filled(2, &[1, 2, 3]));
    let eighty = image(10, 1, ChannelLayout::Rgb8, samples);
    assert_eq!(classify(&eighty, &config), Verdict::Keep);
    let mut samples = filled(9, &[0, 0, 0]);
    samples.extend(filled(1, &[1, 2, 3]));
    let ninety = image(10, 1, ChannelLayout::Rgb8, samples);
    assert_eq!(classify(&ninety, &config), Verdict::Delete(Reason::TargetColorMatch));
    // the last rule of the palette counts as the first does
    let blue = image(2, 2, ChannelLayout::Rgba8, filled(4, &[0, 0, 255, 255]));
    assert_eq!(classify(&blue, &config), Verdict::Delete(Reason::TargetColorMatch));
    // a flat colour that is not in the palette is kept in this mode
    let grey = image(2, 2, ChannelLayout::Rgb8, filled(4, &[9, 9, 9]));
    assert_eq!(classify(&grey, &config), Verdict::Keep);
    assert_eq!(classify(&grey, &Config::target_colors(vec![])), Verdict::Keep);
    let lenient = Config::target_colors(vec![TargetRule {
        color: TargetColor::opaque(9, 9, 9),
        threshold: 10000,
    }]);
    assert_eq!(classify(&grey, &lenient), Verdict::Keep);
    let strict = Config::target_colors(vec![
        TargetRule { color: TargetColor::opaque(1, 1, 1), threshold: 0 },
        TargetRule { color: TargetColor::opaque(9, 9, 9), threshold: 9999 },
    ]);
    assert_eq!(classify(&grey, &strict), Verdict::Delete(Reason::TargetColorMatch));
}

#[test]
fn layouts() {
    let all = [
        (ChannelLayout::Rgb8, 3usize, 8u8, 255u16, false, false),
        (ChannelLayout::Rgba8, 4, 8, 255, true, false),
        (ChannelLayout::Rgb16, 3, 16, 65535, false, false),
        (ChannelLayout::Rgba16, 4, 16, 65535, true, false),
        (ChannelLayout::Bgr8, 3, 8, 255, false, true),
        (ChannelLayout::Bgra8, 4, 8, 255, true, true),
    ];
    for (layout, channels, bits, top, alpha, reversed) in all {
        assert_eq!(layout.channel_count(), channels);
        assert_eq!(layout.bit_depth(), bits);
        assert_eq!(layout.max_sample(), top);
        assert_eq!(layout.has_alpha(), alpha);
        assert_eq!(layout.is_reversed(), reversed);
        assert!(layout.is_supported());
    }
    assert!(!ChannelLayout::Unsupported.is_supported());
    assert_eq!(ChannelLayout::Unsupported.channel_count(), 0);
    assert_eq!(ChannelLayout::Unsupported.bit_depth(), 0);
    assert_eq!(ChannelLayout::Unsupported.max_sample(), 0);
}
