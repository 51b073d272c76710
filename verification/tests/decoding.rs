use cleanax::classify::{Config, Reason, Verdict};
use cleanax::decoded::{adapt, check_solid_color, judge, judge_loaded, layout_of, widen_samples};
use cleanax::error::Error;
use cleanax::layout::ChannelLayout;
use image::{
    Bgr, Bgra, DynamicImage, GrayImage, ImageBuffer, ImageFormat, ImageOutputFormat, Luma, Rgb,
    RgbImage, Rgba, RgbaImage,
};

fn png_of(image: &DynamicImage) -> Vec<u8> {
    let mut bytes: Vec<u8> = Vec::new();
    match image.write_to(&mut bytes, ImageOutputFormat::Png) {
        Ok(()) => bytes,
        Err(e) => panic!("not encoded: {:?}", e),
    }
}

fn noise(len: usize) -> Vec<u8> {
    let mut state: u32 = 12345;
    let mut out: Vec<u8> = Vec::new();
    for _ in 0..len {
        state = state.wrapping_mul(1664525).wrapping_add(1013904223);
        out.push((state >> 24) as u8);
    }
    out
}

fn rgb8(width: u32, height: u32, samples: Vec<u8>) -> DynamicImage {
    DynamicImage::ImageRgb8(RgbImage::from_raw(width, height, samples).unwrap())
}

#[test]
fn widening_keeps_every_sample() {
    assert_eq!(widen_samples(&vec![0u8, 1, 128, 255]), vec![0u16, 1, 128, 255]);
    assert_eq!(widen_samples(&vec![]), Vec::<u16>::new());
}

#[test]
fn adapt_reads_size_layout_and_samples() {
    let image = rgb8(2, 3, (0..18).collect());
    let buffer = adapt(&image).unwrap();
    assert_eq!((buffer.width(), buffer.height()), (2, 3));
    assert_eq!(buffer.layout(), ChannelLayout::Rgb8);
    assert_eq!(buffer.samples(), &(0..18).collect::<Vec<u16>>());
    assert_eq!(buffer.pixel_count(), 6);
    assert_eq!(buffer.sample(5, 2), 17);

    let image = DynamicImage::ImageRgba8(RgbaImage::from_raw(1, 2, vec![1, 2, 3, 4, 5, 6, 7, 8]).unwrap());
    let buffer = adapt(&image).unwrap();
    assert_eq!((buffer.width(), buffer.height(), buffer.layout()), (1, 2, ChannelLayout::Rgba8));
    assert_eq!(buffer.samples(), &vec![1u16, 2, 3, 4, 5, 6, 7, 8]);

    let wide: ImageBuffer<Rgb<u16>, Vec<u16>> = ImageBuffer::from_raw(1, 1, vec![300, 0, 65535]).unwrap();
    let buffer = adapt(&DynamicImage::ImageRgb16(wide)).unwrap();
    assert_eq!(buffer.layout(), ChannelLayout::Rgb16);
    assert_eq!(buffer.samples(), &vec![300u16, 0, 65535]);

    let wide: ImageBuffer<Rgba<u16>, Vec<u16>> = ImageBuffer::from_raw(1, 1, vec![300, 0, 65535, 7]).unwrap();
    let buffer = adapt(&DynamicImage::ImageRgba16(wide)).unwrap();
    assert_eq!(buffer.layout(), ChannelLayout::Rgba16);
    assert_eq!(buffer.samples(), &vec![300u16, 0, 65535, 7]);

    let bgr: ImageBuffer<Bgr<u8>, Vec<u8>> = ImageBuffer::from_raw(1, 1, vec![3, 2, 1]).unwrap();
    let buffer = adapt(&DynamicImage::ImageBgr8(bgr)).unwrap();
    assert_eq!(buffer.layout(), ChannelLayout::Bgr8);
    assert_eq!(buffer.samples(), &vec![3u16, 2, 1]);

    let bgra: ImageBuffer<Bgra<u8>, Vec<u8>> = ImageBuffer::from_raw(1, 1, vec![3, 2, 1, 0]).unwrap();
    let buffer = adapt(&DynamicImage::ImageBgra8(bgra)).unwrap();
    assert_eq!(buffer.layout(), ChannelLayout::Bgra8);
    assert_eq!(buffer.samples(), &vec![3u16, 2, 1, 0]);
}

#[test]
fn adapt_refuses_other_layouts() {
    let grey = DynamicImage::ImageLuma8(GrayImage::from_raw(2, 2, vec![0, 0, 0, 0]).unwrap());
    assert_eq!(adapt(&grey).err(), Some(Error::UnsupportedLayout));
    let grey16: ImageBuffer<Luma<u16>, Vec<u16>> = ImageBuffer::from_raw(1, 1, vec![9]).unwrap();
    assert_eq!(adapt(&DynamicImage::ImageLuma16(grey16)).err(), Some(Error::UnsupportedLayout));
    for config in [Config::default(), Config::known_bad_colors()] {
        assert_eq!(judge(&grey, &config), Verdict::Delete(Reason::UnsupportedLayout));
        assert!(check_solid_color(&grey, &config));
    }
}

#[test]
fn adapt_refuses_a_container_longer_than_the_image() {
    let image = rgb8(1, 1, vec![0, 0, 0, 0]);
    assert_eq!(adapt(&image).err(), Some(Error::UnsupportedLayout));
}

#[test]
fn judging_decoded_images() {
    let config = Config::default();
    let black = rgb8(100, 100, vec![0; 30000]);
    assert_eq!(judge(&black, &config), Verdict::Delete(Reason::SolidColor));
    assert!(check_solid_color(&black, &config));
    assert_eq!(judge(&black, &Config::known_bad_colors()), Verdict::Delete(Reason::TargetColorMatch));

    let lively = rgb8(100, 100, noise(30000));
    assert_eq!(judge(&lively, &config), Verdict::Keep);
    assert!(!check_solid_color(&lively, &config));
    assert!(!check_solid_color(&lively, &Config::known_bad_colors()));

    let bgr: ImageBuffer<Bgr<u8>, Vec<u8>> = ImageBuffer::from_raw(4, 4, vec![0; 48]).unwrap();
    let bgr = DynamicImage::ImageBgr8(bgr);
    assert_eq!(judge(&bgr, &config), Verdict::Keep);
    assert!(!check_solid_color(&bgr, &config));

    let white: ImageBuffer<Rgba<u16>, Vec<u16>> = ImageBuffer::from_raw(4, 4, vec![65535; 64]).unwrap();
    assert!(check_solid_color(&DynamicImage::ImageRgba16(white), &config));
}

/// What the caller does with the contents of a file: it decodes them, and
/// counts whatever goes wrong as a decode failure.
fn decode(bytes: &[u8], format: ImageFormat) -> Result<DynamicImage, Error> {
    match image::load_from_memory_with_format(bytes, format) {
        Ok(image) => Ok(image),
        Err(_) => Err(Error::DecodeFailure),
    }
}

#[test]
fn layout_of_tells_the_variants_apart() {
    assert_eq!(layout_of(&rgb8(1, 1, vec![0, 0, 0])), ChannelLayout::Rgb8);
    let rgba = DynamicImage::ImageRgba8(RgbaImage::from_raw(1, 1, vec![0; 4]).unwrap());
    assert_eq!(layout_of(&rgba), ChannelLayout::Rgba8);
    let wide: ImageBuffer<Rgb<u16>, Vec<u16>> = ImageBuffer::from_raw(1, 1, vec![0; 3]).unwrap();
    assert_eq!(layout_of(&DynamicImage::ImageRgb16(wide)), ChannelLayout::Rgb16);
    let wide: ImageBuffer<Rgba<u16>, Vec<u16>> = ImageBuffer::from_raw(1, 1, vec![0; 4]).unwrap();
    assert_eq!(layout_of(&DynamicImage::ImageRgba16(wide)), ChannelLayout::Rgba16);
    let bgr: ImageBuffer<Bgr<u8>, Vec<u8>> = ImageBuffer::from_raw(1, 1, vec![0; 3]).unwrap();
    assert_eq!(layout_of(&DynamicImage::ImageBgr8(bgr)), ChannelLayout::Bgr8);
    let bgra: ImageBuffer<Bgra<u8>, Vec<u8>> = ImageBuffer::from_raw(1, 1, vec![0; 4]).unwrap();
    assert_eq!(layout_of(&DynamicImage::ImageBgra8(bgra)), ChannelLayout::Bgra8);
    let grey = DynamicImage::ImageLuma8(GrayImage::from_raw(1, 1, vec![0]).unwrap());
    assert_eq!(layout_of(&grey), ChannelLayout::Unsupported);
    assert!(!layout_of(&grey).is_supported());
}

#[test]
fn a_decoded_file_is_read_as_it_was_written() {
    let image = rgb8(3, 2, noise(18));
    let loaded = decode(&png_of(&image), ImageFormat::Png).unwrap();
    assert_eq!(loaded, image);
    let buffer = adapt(&loaded).unwrap();
    assert_eq!((buffer.width(), buffer.height(), buffer.layout()), (3, 2, ChannelLayout::Rgb8));
    assert_eq!(buffer.samples(), &widen_samples(&noise(18)));
}

#[test]
fn a_file_that_did_not_decode_is_deleted() {
    let configs = [
        Config::default(),
        Config::known_bad_colors(),
        Config::flatness(0, cleanax::stats::Deviation::Exact),
    ];
    let image = rgb8(3, 2, noise(18));
    let mut cut = png_of(&image);
    cut.truncate(20);
    let failures = [
        decode(b"this is no image", ImageFormat::Png),
        decode(&[], ImageFormat::Png),
        decode(&cut, ImageFormat::Png),
        // the right bytes, read as another format
        decode(&png_of(&image), ImageFormat::Jpeg),
        // however the failure is called
        Err(Error::DecodeFailure),
        Err(Error::UnsupportedLayout),
        Err(Error::DirectoryUnreadable),
    ];
    for config in &configs {
        for failure in &failures {
            assert!(failure.is_err());
            assert_eq!(judge_loaded(failure, config), Verdict::Delete(Reason::DecodeFailure));
        }
    }
}

#[test]
fn a_file_that_decoded_is_judged_by_its_pixels() {
    let lively = rgb8(10, 10, noise(300));
    assert_eq!(judge_loaded(&Ok(lively), &Config::default()), Verdict::Keep);
    let black = decode(&png_of(&rgb8(10, 10, vec![0; 300])), ImageFormat::Png);
    assert_eq!(judge_loaded(&black, &Config::default()), Verdict::Delete(Reason::SolidColor));
    let grey = DynamicImage::ImageLuma8(GrayImage::from_raw(1, 1, vec![0]).unwrap());
    let loaded = decode(&png_of(&grey), ImageFormat::Png);
    assert!(loaded.is_ok());
    assert_eq!(judge_loaded(&loaded, &Config::default()), Verdict::Delete(Reason::UnsupportedLayout));
}
