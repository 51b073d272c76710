//! The channel layouts in which a decoded image can hand over its samples.

use vstd::prelude::*;

verus! {

/// How the samples of one pixel are laid out.
#[derive(Clone, Copy, Debug, PartialEq, Eq, Structural)]
pub enum ChannelLayout {
    /// Red, green, blue; 8 bits each.
    Rgb8,
    /// Red, green, blue, alpha; 8 bits each.
    Rgba8,
    /// Red, green, blue; 16 bits each.
    Rgb16,
    /// Red, green, blue, alpha; 16 bits each.
    Rgba16,
    /// Blue, green, red; 8 bits each. The order is left as it is.
    Bgr8,
    /// Blue, green, red, alpha; 8 bits each. The order is left as it is.
    Bgra8,
    /// Anything else: grey, palette, floating point.
    Unsupported,
}

impl ChannelLayout {
    /// Samples per pixel; none for a layout that is not understood.
    pub open spec fn channels(self) -> nat {
        match self {
            ChannelLayout::Rgb8 | ChannelLayout::Rgb16 | ChannelLayout::Bgr8 => 3,
            ChannelLayout::Rgba8 | ChannelLayout::Rgba16 | ChannelLayout::Bgra8 => 4,
            ChannelLayout::Unsupported => 0,
        }
    }

    /// Bits per sample; none for a layout that is not understood.
    pub open spec fn depth(self) -> nat {
        match self {
            ChannelLayout::Rgb8 | ChannelLayout::Rgba8 | ChannelLayout::Bgr8
            | ChannelLayout::Bgra8 => 8,
            ChannelLayout::Rgb16 | ChannelLayout::Rgba16 => 16,
            ChannelLayout::Unsupported => 0,
        }
    }

    /// The largest value a sample of this layout can take.
    pub open spec fn ceiling(self) -> nat {
        if self.depth() == 8 {
            255
        } else if self.depth() == 16 {
            65535
        } else {
            0
        }
    }

    /// Whether the fourth sample of a pixel is its opacity.
    pub open spec fn alpha(self) -> bool {
        self.channels() == 4
    }

    /// Whether the layout is one of the six that are understood.
    pub open spec fn supported(self) -> bool {
        self != ChannelLayout::Unsupported
    }

    /// Whether the channels come blue first. Such images are passed through
    /// without being measured.
    pub open spec fn reversed(self) -> bool {
        self == ChannelLayout::Bgr8 || self == ChannelLayout::Bgra8
    }

    /// Samples per pixel.
    pub fn channel_count(&self) -> (n: usize)
        ensures
            n == self.channels(),
    {
        match self {
            ChannelLayout::Rgb8 | ChannelLayout::Rgb16 | ChannelLayout::Bgr8 => 3,
            ChannelLayout::Rgba8 | ChannelLayout::Rgba16 | ChannelLayout::Bgra8 => 4,
            ChannelLayout::Unsupported => 0,
        }
    }

    /// Bits per sample.
    pub fn bit_depth(&self) -> (bits: u8)
        ensures
            bits == self.depth(),
    {
        match self {
            ChannelLayout::Rgb8 | ChannelLayout::Rgba8 | ChannelLayout::Bgr8
            | ChannelLayout::Bgra8 => 8,
            ChannelLayout::Rgb16 | ChannelLayout::Rgba16 => 16,
            ChannelLayout::Unsupported => 0,
        }
    }

    /// The largest value a sample of this layout can take.
    pub fn max_sample(&self) -> (top: u16)
        ensures
            top == self.ceiling(),
    {
        match self.bit_depth() {
            8 => 255,
            16 => 65535,
            _ => 0,
        }
    }

    /// Whether pixels carry an alpha sample.
    pub fn has_alpha(&self) -> (yes: bool)
        ensures
            yes == self.alpha(),
    {
        self.channel_count() == 4
    }

    /// Whether the layout is understood.
    pub fn is_supported(&self) -> (yes: bool)
        ensures
            yes == self.supported(),
    {
        match self {
            ChannelLayout::Unsupported => false,
            _ => true,
        }
    }

    /// Whether the channels come blue first.
    pub fn is_reversed(&self) -> (yes: bool)
        ensures
            yes == self.reversed(),
    {
        match self {
            ChannelLayout::Bgr8 | ChannelLayout::Bgra8 => true,
            _ => false,
        }
    }
}

} // verus!
