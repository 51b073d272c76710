//! Images as the `image` crate decodes them, and what this library reads out
//! of them.
//!
//! Decoding itself is not done here: a decoder may unwind on a malformed
//! file, which no contract could rule out, so the caller decodes and hands
//! over what came of it. What touches a decoded image goes through one of
//! four small functions whose contracts are taken on trust; the rest is
//! verified against them.

use crate::buffer::{fills, BufferView, PixelBuffer};
use crate::classify::{classify, verdict_of_raw, Config, Mode, Reason, Verdict};
use crate::error::Error;
use crate::layout::ChannelLayout;
use image::{DynamicImage, GenericImageView};
use vstd::prelude::*;

verus! {

/// `image::DynamicImage`, a decoded image. Nothing inside it is visible to the
/// proofs: what is read out of it has a name below.
#[verifier::external_type_specification]
#[verifier::external_body]
pub struct ExDynamicImage(DynamicImage);

/// The width and the height of a decoded image: what `dimensions` reads out
/// of it.
pub uninterp spec fn image_size(image: DynamicImage) -> (u32, u32);

/// The layout in which a decoded image holds its samples: what `layout_tag`
/// reads out of it.
pub uninterp spec fn image_layout(image: DynamicImage) -> ChannelLayout;

/// The samples of a decoded image of 8 bits per channel, pixel after pixel:
/// what `samples_8` reads out of it.
pub uninterp spec fn narrow_samples(image: DynamicImage) -> Seq<u8>;

/// The samples of a decoded image of 16 bits per channel, pixel after pixel:
/// what `samples_16` reads out of it.
pub uninterp spec fn wide_samples(image: DynamicImage) -> Seq<u16>;

/// Width and height of `image`, in this order.
///
/// Calls `GenericImageView::dimensions` of the `image` crate, which for a
/// `DynamicImage` hands on the two numbers that the buffer of the variant was
/// made with. The contract only gives that pair its name.
#[verifier::external_body]
fn dimensions(image: &DynamicImage) -> (size: (u32, u32))
    ensures
        size == image_size(*image),
{
    image.dimensions()
}

/// The layout of `image`.
///
/// Tells the variants of `image::DynamicImage` apart: the six of three or four
/// colour channels get their own tag, every other one is unsupported. The
/// contract only gives that tag its name.
#[verifier::external_body]
fn layout_tag(image: &DynamicImage) -> (layout: ChannelLayout)
    ensures
        layout == image_layout(*image),
{
    match image {
        DynamicImage::ImageRgb8(_) => ChannelLayout::Rgb8,
        DynamicImage::ImageRgba8(_) => ChannelLayout::Rgba8,
        DynamicImage::ImageRgb16(_) => ChannelLayout::Rgb16,
        DynamicImage::ImageRgba16(_) => ChannelLayout::Rgba16,
        DynamicImage::ImageBgr8(_) => ChannelLayout::Bgr8,
        DynamicImage::ImageBgra8(_) => ChannelLayout::Bgra8,
        _ => ChannelLayout::Unsupported,
    }
}

/// A copy of the samples of an image of 8 bits per colour channel, and
/// nothing for any other image.
///
/// Calls `ImageBuffer::as_raw` of the `image` crate on the buffer of the four
/// such variants, which hands out the container that holds the samples. The
/// contract only gives its content a name.
#[verifier::external_body]
fn samples_8(image: &DynamicImage) -> (samples: Vec<u8>)
    ensures
        samples@ == narrow_samples(*image),
{
    match image {
        DynamicImage::ImageRgb8(pixels) => pixels.as_raw().clone(),
        DynamicImage::ImageRgba8(pixels) => pixels.as_raw().clone(),
        DynamicImage::ImageBgr8(pixels) => pixels.as_raw().clone(),
        DynamicImage::ImageBgra8(pixels) => pixels.as_raw().clone(),
        _ => Vec::new(),
    }
}

/// A copy of the samples of an image of 16 bits per colour channel, and
/// nothing for any other image.
///
/// Calls `ImageBuffer::as_raw` of the `image` crate on the buffer of the two
/// such variants, which hands out the container that holds the samples. The
/// contract only gives its content a name.
#[verifier::external_body]
fn samples_16(image: &DynamicImage) -> (samples: Vec<u16>)
    ensures
        samples@ == wide_samples(*image),
{
    match image {
        DynamicImage::ImageRgb16(pixels) => pixels.as_raw().clone(),
        DynamicImage::ImageRgba16(pixels) => pixels.as_raw().clone(),
        _ => Vec::new(),
    }
}

/// A sample of 8 bits as one of 16: the same number.
pub open spec fn as_wide(samples: Seq<u8>) -> Seq<u16> {
    Seq::new(samples.len(), |i: int| samples[i] as u16)
}

/// The samples of a decoded image, whatever their depth.
pub open spec fn image_samples(image: DynamicImage) -> Seq<u16> {
    if image_layout(image).depth() == 8 {
        as_wide(narrow_samples(image))
    } else {
        wide_samples(image)
    }
}

/// The verdict on a decoded image.
pub open spec fn verdict_of_image(image: DynamicImage, mode: Mode) -> Verdict {
    verdict_of_raw(
        image_size(image).0 as nat,
        image_size(image).1 as nat,
        image_layout(image),
        image_samples(image),
        mode,
    )
}

/// The verdict on what became of a file: one that did not decode is deleted
/// as a decode failure, whatever the failure is called, and an image is
/// judged by its pixels.
pub open spec fn verdict_of_loaded(loaded: Result<DynamicImage, Error>, mode: Mode) -> Verdict {
    match loaded {
        Ok(image) => verdict_of_image(image, mode),
        Err(_) => Verdict::Delete(Reason::DecodeFailure),
    }
}

/// The samples of 8 bits as samples of 16 bits.
pub fn widen_samples(samples: &Vec<u8>) -> (wide: Vec<u16>)
    ensures
        wide@ == as_wide(samples@),
{
    let mut wide: Vec<u16> = Vec::with_capacity(samples.len());
    let mut i: usize = 0;
    while i < samples.len()
        invariant
            i <= samples@.len(),
            wide@ == as_wide(samples@.subrange(0, i as int)),
        decreases samples@.len() - i,
    {
        wide.push(samples[i] as u16);
        assert(wide@ =~= as_wide(samples@.subrange(0, i + 1)));
        i += 1;
    }
    assert(samples@.subrange(0, i as int) =~= samples@);
    wide
}

/// The layout in which a decoded image holds its samples.
pub fn layout_of(image: &DynamicImage) -> (layout: ChannelLayout)
    ensures
        layout == image_layout(*image),
{
    layout_tag(image)
}

/// Reads the pixels out of a decoded image, or refuses it for its layout.
pub fn adapt(image: &DynamicImage) -> (made: Result<PixelBuffer, Error>)
    ensures
        made is Ok <==> fills(
            image_size(*image).0 as nat,
            image_size(*image).1 as nat,
            image_layout(*image),
            image_samples(*image),
        ),
        made matches Ok(buffer) ==> buffer@ == (BufferView {
            width: image_size(*image).0 as nat,
            height: image_size(*image).1 as nat,
            layout: image_layout(*image),
            samples: image_samples(*image),
        }),
        made matches Err(e) ==> e == Error::UnsupportedLayout,
{
    let layout = layout_tag(image);
    if !layout.is_supported() {
        return Err(Error::UnsupportedLayout);
    }
    let (width, height) = dimensions(image);
    let samples = if layout.bit_depth() == 8 {
        widen_samples(&samples_8(image))
    } else {
        samples_16(image)
    };
    PixelBuffer::new(width, height, layout, samples)
}

/// Judges a decoded image.
pub fn judge(image: &DynamicImage, config: &Config) -> (verdict: Verdict)
    ensures
        verdict == verdict_of_image(*image, config.mode),
        !image_layout(*image).supported() ==> verdict == Verdict::Delete(
            Reason::UnsupportedLayout,
        ),
{
    match adapt(image) {
        Ok(buffer) => classify(&buffer, config),
        Err(_) => Verdict::Delete(Reason::UnsupportedLayout),
    }
}

/// Whether a decoded image is to be deleted: it is one flat colour, or too
/// much of a target colour, or in a layout that is not understood.
pub fn check_solid_color(image: &DynamicImage, config: &Config) -> (delete: bool)
    ensures
        delete == (verdict_of_image(*image, config.mode) is Delete),
{
    judge(image, config).is_delete()
}

/// Judges what became of a file.
pub fn judge_loaded(loaded: &Result<DynamicImage, Error>, config: &Config) -> (verdict: Verdict)
    ensures
        verdict == verdict_of_loaded(*loaded, config.mode),
        loaded is Err ==> verdict == Verdict::Delete(Reason::DecodeFailure),
{
    match loaded {
        Ok(image) => judge(image, config),
        Err(_) => Verdict::Delete(Reason::DecodeFailure),
    }
}

} // verus!
