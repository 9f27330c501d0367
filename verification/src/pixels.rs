//! The pixel formats an image buffer can hold.

use vstd::prelude::*;

verus! {

/// Layout of one pixel: how many channels it has and how wide each is.
/// Channels are stored in order, each little-endian. In the four-channel
/// formats the channels are red, green, blue and alpha.
#[derive(Clone, Copy, Debug, PartialEq, Eq, Structural)]
pub enum PixelType {
    U8,
    U8x2,
    U8x3,
    U8x4,
    U16,
    U16x2,
    U16x3,
    U16x4,
}

impl PixelType {
    /// Number of channels of one pixel.
    pub open spec fn spec_channels(self) -> nat {
        match self {
            PixelType::U8 | PixelType::U16 => 1,
            PixelType::U8x2 | PixelType::U16x2 => 2,
            PixelType::U8x3 | PixelType::U16x3 => 3,
            PixelType::U8x4 | PixelType::U16x4 => 4,
        }
    }

    /// Width of one channel in bits.
    pub open spec fn spec_channel_bits(self) -> nat {
        match self {
            PixelType::U8 | PixelType::U8x2 | PixelType::U8x3 | PixelType::U8x4 => 8,
            PixelType::U16 | PixelType::U16x2 | PixelType::U16x3 | PixelType::U16x4 => 16,
        }
    }

    /// Bytes taken by one pixel: channels times channel width.
    pub open spec fn spec_size(self) -> nat {
        match self {
            PixelType::U8 => 1,
            PixelType::U8x2 | PixelType::U16 => 2,
            PixelType::U8x3 => 3,
            PixelType::U8x4 | PixelType::U16x2 => 4,
            PixelType::U16x3 => 6,
            PixelType::U16x4 => 8,
        }
    }

    /// A pixel takes `channels * channel_bits / 8` bytes.
    pub proof fn lemma_size(self)
        ensures
            self.spec_size() == self.spec_channels() * self.spec_channel_bits() / 8,
    {
    }

    /// Whether the last channel is alpha.
    pub open spec fn spec_has_alpha(self) -> bool {
        self.spec_channels() == 4
    }

    /// Number of channels of one pixel.
    pub fn channels(self) -> (n: usize)
        ensures
            n == self.spec_channels(),
            1 <= n <= 4,
    {
        match self {
            PixelType::U8 | PixelType::U16 => 1,
            PixelType::U8x2 | PixelType::U16x2 => 2,
            PixelType::U8x3 | PixelType::U16x3 => 3,
            PixelType::U8x4 | PixelType::U16x4 => 4,
        }
    }

    /// Width of one channel in bits.
    pub fn channel_bits(self) -> (n: usize)
        ensures
            n == self.spec_channel_bits(),
            n == 8 || n == 16,
    {
        match self {
            PixelType::U8 | PixelType::U8x2 | PixelType::U8x3 | PixelType::U8x4 => 8,
            PixelType::U16 | PixelType::U16x2 | PixelType::U16x3 | PixelType::U16x4 => 16,
        }
    }

    /// Bytes taken by one pixel.
    pub fn size(self) -> (n: usize)
        ensures
            n == self.spec_size(),
            1 <= n <= 8,
    {
        self.channels() * self.channel_bits() / 8
    }

    /// Whether the last channel is alpha.
    #[verifier::when_used_as_spec(spec_has_alpha)]
    pub fn has_alpha(self) -> (b: bool)
        ensures
            b == self.spec_has_alpha(),
    {
        self.channels() == 4
    }
}

} // verus!
