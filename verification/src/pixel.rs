//! Pixel formats.
//!
//! A format is an opaque packed descriptor; the only property the atlas and
//! the blitter read from it is its bits-per-pixel value, which the packing
//! stores in bits 8 to 15 of the descriptor (packed descriptors have bit
//! pattern 1 in the top four bits; four-character codes do not, and carry no
//! bits-per-pixel value).

use vstd::prelude::*;

verus! {

/// An opaque pixel-format descriptor.
#[derive(Debug, Clone, Copy, PartialEq, Eq, Hash, Structural)]
pub struct PixelFormat {
    pub code: u32,
}

/// The bits-per-pixel value packed into a format descriptor; zero for a
/// four-character code, which encodes no such value.
pub open spec fn spec_bits_per_pixel(f: PixelFormat) -> u32 {
    if f.code != 0 && (f.code >> 28u32) != 1u32 {
        0u32
    } else {
        (f.code >> 8u32) & 0xFFu32
    }
}

/// The whole bytes needed per pixel: defined for bits-per-pixel values that
/// are positive multiples of eight up to 248, absent otherwise.
pub open spec fn spec_bytes_per_pixel(bits: u32) -> Option<u32> {
    if 8 <= bits <= 248 && bits % 8 == 0 {
        Some((bits / 8) as u32)
    } else {
        None
    }
}

/// Whether the blitter and the atlas can work with the format.
pub open spec fn format_supported(f: PixelFormat) -> bool {
    spec_bytes_per_pixel(spec_bits_per_pixel(f)) is Some
}

/// The bytes per pixel of a supported format; zero for an unsupported one.
pub open spec fn spec_bpp_of(f: PixelFormat) -> int {
    match spec_bytes_per_pixel(spec_bits_per_pixel(f)) {
        Some(b) => b as int,
        None => 0,
    }
}

impl PixelFormat {
    pub fn new(code: u32) -> (f: PixelFormat)
        ensures
            f == (PixelFormat { code }),
    {
        PixelFormat { code }
    }

    /// The bits-per-pixel value packed into the descriptor.
    pub fn bits_per_pixel(&self) -> (r: u32)
        ensures
            r == spec_bits_per_pixel(*self),
    {
        if self.code != 0 && (self.code >> 28u32) != 1u32 {
            0
        } else {
            (self.code >> 8u32) & 0xFF
        }
    }

    /// The whole bytes per pixel of the format, if its bits-per-pixel value
    /// is supported.
    pub fn bytes_per_pixel(&self) -> (r: Option<u32>)
        ensures
            r == spec_bytes_per_pixel(spec_bits_per_pixel(*self)),
    {
        let bits = self.bits_per_pixel();
        if 8 <= bits && bits <= 248 && bits % 8 == 0 {
            Some(bits / 8)
        } else {
            None
        }
    }
}

} // verus!
