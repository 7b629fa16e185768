//! The staging texture: the CPU-side image a segment draws from.
//!
//! A texture owns a tightly pitched byte buffer for a fixed size and pixel
//! format; the buffer is what the blitter fills and what a rendering backend
//! uploads from. Its size and format never change after creation.

use vstd::prelude::*;

use crate::blit::{region_in_bounds, row_start};
use crate::error::SdlError;
use crate::geom::{rect_in_bounds, Rect, Size};
use crate::pixel::{format_supported, spec_bpp_of, PixelFormat};

verus! {

/// A fixed-size image buffer with a supported pixel format.
#[derive(Debug)]
pub struct Texture {
    pub size: Size,
    pub format: PixelFormat,
    pub pitch: usize,
    pub pixels: Vec<u8>,
}

/// Whether a texture can be created: the format is supported, the dimensions
/// stay below the coordinate unit's saturation point, and the buffer fits an
/// address-sized length.
pub open spec fn texture_creatable(format: PixelFormat, size: Size) -> bool {
    &&& format_supported(format)
    &&& size.width < u32::MAX
    &&& size.height < u32::MAX
    &&& size.width * spec_bpp_of(format) <= usize::MAX
    &&& size.height * (size.width * spec_bpp_of(format)) <= usize::MAX
}

impl Texture {
    /// Well-formedness: the pitch covers exactly one row and the buffer
    /// covers exactly all rows.
    pub open spec fn wf(self) -> bool {
        &&& format_supported(self.format)
        &&& self.size.width < u32::MAX
        &&& self.size.height < u32::MAX
        &&& self.pitch == self.size.width * spec_bpp_of(self.format)
        &&& self.pixels@.len() == self.size.height * self.pitch
    }

    /// Create a zero-filled texture. Fails exactly when the format or the
    /// dimensions are out of the backing store's reach.
    pub fn create(format: PixelFormat, size: Size) -> (r: Result<Texture, SdlError>)
        ensures
            match r {
                Ok(t) => {
                    &&& texture_creatable(format, size)
                    &&& t.wf()
                    &&& t.size == size
                    &&& t.format == format
                    &&& forall|i: int| 0 <= i < t.pixels@.len() ==> t.pixels@[i] == 0u8
                },
                Err(e) => {
                    &&& !texture_creatable(format, size)
                    &&& e matches SdlError::SdlError(_)
                },
            },
    {
        let bpp: u32 = match format.bytes_per_pixel() {
            Some(b) => b,
            None => {
                return Err(SdlError::sdl_err("failed to create texture: unsupported pixel format"));
            },
        };
        if size.width >= u32::MAX || size.height >= u32::MAX {
            return Err(SdlError::sdl_err("failed to create texture: dimensions too large"));
        }
        let pitch: usize = match (size.width as usize).checked_mul(bpp as usize) {
            Some(p) => p,
            None => {
                return Err(SdlError::sdl_err("failed to create texture: row size overflow"));
            },
        };
        let len: usize = match (size.height as usize).checked_mul(pitch) {
            Some(l) => l,
            None => {
                return Err(SdlError::sdl_err("failed to create texture: buffer size overflow"));
            },
        };
        let mut pixels: Vec<u8> = Vec::new();
        while pixels.len() < len
            invariant
                pixels@.len() <= len,
                forall|i: int| 0 <= i < pixels@.len() ==> pixels@[i] == 0u8,
            decreases len - pixels@.len(),
        {
            pixels.push(0u8);
        }
        Ok(Texture { size, format, pitch, pixels })
    }

    /// The texture's fixed size in pixels.
    pub fn size(&self) -> (s: Size)
        ensures
            s == self.size,
    {
        self.size
    }

    /// The texture's pixel format.
    pub fn format(&self) -> (f: PixelFormat)
        ensures
            f == self.format,
    {
        self.format
    }
}

/// A rectangle within a texture's bounds addresses rows that all lie inside
/// the texture's buffer, and its row bytes fit the texture's pitch.
pub proof fn lemma_texture_region_in_bounds(t: Texture, r: Rect)
    requires
        t.wf(),
        rect_in_bounds(r, t.size),
    ensures
        region_in_bounds(
            t.pixels@.len() as int,
            r.position.x as int,
            r.position.y as int,
            r.size.width as int,
            r.size.height as int,
            t.pitch as int,
            spec_bpp_of(t.format),
        ),
        r.size.width * spec_bpp_of(t.format) <= t.pitch,
{
    let bpp = spec_bpp_of(t.format);
    let pitch = t.pitch as int;
    let len = t.pixels@.len() as int;
    let rx = r.position.x as int;
    let ry = r.position.y as int;
    let rw = r.size.width as int;
    let rh = r.size.height as int;
    let wi = t.size.width as int;
    let hi = t.size.height as int;
    assert(rw * bpp <= wi * bpp) by (nonlinear_arith)
        requires
            rw <= wi,
            bpp >= 0,
    ;
    assert forall|y: int| 0 <= y < rh implies #[trigger] row_start(rx, ry, y, pitch, bpp) + rw * bpp
        <= len by {
        assert((ry + y) * pitch + rx * bpp + rw * bpp <= hi * pitch) by (nonlinear_arith)
            requires
                ry + y < hi,
                rx + rw <= wi,
                pitch == wi * bpp,
                bpp >= 0,
                ry + y >= 0,
                pitch >= 0,
        ;
    }
}

} // verus!
