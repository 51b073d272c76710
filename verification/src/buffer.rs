//! A decoded image as this library reads it: its size, its layout and its
//! samples in one flat run.

use crate::error::Error;
use crate::layout::ChannelLayout;
use vstd::prelude::*;

verus! {

/// What a `PixelBuffer` holds, as mathematical values.
pub struct BufferView {
    pub width: nat,
    pub height: nat,
    pub layout: ChannelLayout,
    pub samples: Seq<u16>,
}

/// Whether `samples` are the pixels of an image of `width` by `height` in
/// `layout`: the layout is understood, every pixel has all its samples and no
/// sample is larger than the layout's depth allows.
pub open spec fn fills(width: nat, height: nat, layout: ChannelLayout, samples: Seq<u16>) -> bool {
    &&& layout.supported()
    &&& samples.len() == width * height * layout.channels()
    &&& forall|i: int| 0 <= i < samples.len() ==> #[trigger] samples[i] <= layout.ceiling()
}

impl BufferView {
    /// The invariant of every pixel buffer.
    pub open spec fn wf(self) -> bool {
        fills(self.width, self.height, self.layout, self.samples)
    }

    /// The number of pixels.
    pub open spec fn pixels(self) -> nat {
        self.width * self.height
    }

    /// Samples per pixel.
    pub open spec fn channels(self) -> nat {
        self.layout.channels()
    }
}

/// The samples of one decoded image. It is made once and only read afterwards.
pub struct PixelBuffer {
    width: u32,
    height: u32,
    layout: ChannelLayout,
    samples: Vec<u16>,
}

impl View for PixelBuffer {
    type V = BufferView;

    closed spec fn view(&self) -> BufferView {
        BufferView {
            width: self.width as nat,
            height: self.height as nat,
            layout: self.layout,
            samples: self.samples@,
        }
    }
}

/// A well-formed buffer has a whole number of pixels, and each of them lies
/// inside the samples.
pub proof fn lemma_pixel_inside(view: BufferView, p: int, c: int)
    requires
        view.wf(),
        0 <= p < view.pixels(),
        0 <= c < view.channels(),
    ensures
        0 <= p * view.channels() + c < view.samples.len(),
        view.samples.len() == view.pixels() * view.channels(),
{
    let ch = view.channels() as int;
    let n = view.pixels() as int;
    assert(p * ch + c < n * ch) by (nonlinear_arith)
        requires
            0 <= p < n,
            0 <= c < ch,
    ;
    assert(0 <= p * ch) by (nonlinear_arith)
        requires
            0 <= p,
            0 <= ch,
    ;
}

impl PixelBuffer {
    #[verifier::type_invariant]
    spec fn inv(self) -> bool {
        self@.wf()
    }

    /// Takes over `samples` as the pixels of an image of `width` by `height`
    /// in `layout`, or refuses them as an unsupported layout.
    pub fn new(width: u32, height: u32, layout: ChannelLayout, samples: Vec<u16>) -> (made: Result<
        PixelBuffer,
        Error,
    >)
        ensures
            made is Ok <==> fills(width as nat, height as nat, layout, samples@),
            made matches Ok(buffer) ==> buffer@ == (BufferView {
                width: width as nat,
                height: height as nat,
                layout,
                samples: samples@,
            }),
            made matches Err(e) ==> e == Error::UnsupportedLayout,
    {
        if !layout.is_supported() {
            return Err(Error::UnsupportedLayout);
        }
        let channels: u128 = layout.channel_count() as u128;
        assert(width * height * channels <= 0x4_0000_0000_0000_0000) by (nonlinear_arith)
            requires
                width <= u32::MAX,
                height <= u32::MAX,
                channels <= 4,
        ;
        assert(width * height <= 0x1_0000_0000_0000_0000) by (nonlinear_arith)
            requires
                width <= u32::MAX,
                height <= u32::MAX,
        ;
        let wanted: u128 = (width as u128) * (height as u128) * channels;
        if samples.len() as u128 != wanted {
            return Err(Error::UnsupportedLayout);
        }
        let top: u16 = layout.max_sample();
        let mut i: usize = 0;
        while i < samples.len()
            invariant
                i <= samples@.len(),
                top == layout.ceiling(),
                forall|j: int| 0 <= j < i ==> #[trigger] samples@[j] <= top,
            decreases samples@.len() - i,
        {
            if samples[i] > top {
                return Err(Error::UnsupportedLayout);
            }
            i += 1;
        }
        Ok(PixelBuffer { width, height, layout, samples })
    }

    /// The width in pixels.
    pub fn width(&self) -> (w: u32)
        ensures
            w == self@.width,
    {
        self.width
    }

    /// The height in pixels.
    pub fn height(&self) -> (h: u32)
        ensures
            h == self@.height,
    {
        self.height
    }

    /// The layout of the samples.
    pub fn layout(&self) -> (layout: ChannelLayout)
        ensures
            layout == self@.layout,
            self@.wf(),
    {
        proof {
            use_type_invariant(self);
        }
        self.layout
    }

    /// The samples, pixel after pixel.
    pub fn samples(&self) -> (samples: &Vec<u16>)
        ensures
            samples@ == self@.samples,
    {
        &self.samples
    }

    /// The number of pixels.
    pub fn pixel_count(&self) -> (n: usize)
        ensures
            n == self@.pixels(),
            self@.wf(),
            self@.samples.len() == n * self@.channels(),
    {
        proof {
            use_type_invariant(self);
            assert(self@.width * self@.height * self@.channels() == (self@.width * self@.height)
                * self@.channels()) by (nonlinear_arith);
            assert((self@.pixels() * self@.channels()) / self@.channels() == self@.pixels())
                by (nonlinear_arith)
                requires
                    self@.channels() >= 3,
            ;
        }
        self.samples.len() / self.layout.channel_count()
    }

    /// The sample of channel `c` in pixel `p`.
    pub fn sample(&self, p: usize, c: usize) -> (s: u16)
        requires
            p < self@.pixels(),
            c < self@.channels(),
        ensures
            s == self@.samples[p * self@.channels() + c],
            s <= self@.layout.ceiling(),
    {
        proof {
            use_type_invariant(self);
            lemma_pixel_inside(self@, p as int, c as int);
        }
        let channels = self.layout.channel_count();
        assert(0 <= p * channels <= p * channels + c < self.samples.len()) by (nonlinear_arith)
            requires
                p * self@.channels() + c < self.samples@.len(),
                channels == self@.channels(),
        ;
        self.samples[p * channels + c]
    }
}

} // verus!
