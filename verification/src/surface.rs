//! Source images handed to the upload paths.
//!
//! A surface carries the pixel data of one image together with its format,
//! its size and its row pitch. The pitch may exceed the row's pixel bytes;
//! the buffer must cover every row at that pitch.

use vstd::prelude::*;

use crate::blit::{region_in_bounds, row_start};
use crate::error::SdlError;
use crate::geom::{rect_in_bounds, Rect, Size};
use crate::pixel::{format_supported, spec_bpp_of, PixelFormat};

verus! {

/// A source image: pixel data plus the layout needed to read it.
#[derive(Debug)]
pub struct Surface {
    pub format: PixelFormat,
    pub size: Size,
    pub pitch: usize,
    pub pixels: Vec<u8>,
}

impl Surface {
    /// Well-formedness: the pitch covers at least one row of pixels and the
    /// buffer covers at least all rows at that pitch.
    pub open spec fn wf(self) -> bool {
        &&& format_supported(self.format)
        &&& self.size.width < u32::MAX
        &&& self.size.height < u32::MAX
        &&& self.size.width * spec_bpp_of(self.format) <= self.pitch
        &&& self.size.height * self.pitch <= self.pixels@.len()
    }

    /// Wrap pixel data as a surface, checking that the layout is coherent.
    /// Fails exactly when the format is unsupported, a dimension reaches the
    /// coordinate unit's saturation point, the pitch cannot hold a row, or
    /// the buffer cannot hold all rows.
    pub fn new(format: PixelFormat, size: Size, pitch: usize, pixels: Vec<u8>) -> (r: Result<
        Surface,
        SdlError,
    >)
        ensures
            match r {
                Ok(s) => {
                    &&& s == (Surface { format, size, pitch, pixels })
                    &&& s.wf()
                },
                Err(e) => {
                    &&& !(Surface { format, size, pitch, pixels }).wf()
                    &&& e matches SdlError::SdlError(_)
                },
            },
    {
        let bpp: u32 = match format.bytes_per_pixel() {
            Some(b) => b,
            None => {
                return Err(SdlError::sdl_err("surface has an unsupported pixel format"));
            },
        };
        if size.width >= u32::MAX || size.height >= u32::MAX {
            return Err(SdlError::sdl_err("surface dimensions too large"));
        }
        let row: usize = match (size.width as usize).checked_mul(bpp as usize) {
            Some(v) => v,
            None => {
                return Err(SdlError::sdl_err("surface row size overflow"));
            },
        };
        if row > pitch {
            return Err(SdlError::sdl_err("surface pitch smaller than a row"));
        }
        let buf_len: usize = pixels.len();
        let need: usize = match (size.height as usize).checked_mul(pitch) {
            Some(v) => v,
            None => {
                return Err(SdlError::sdl_err("surface buffer size overflow"));
            },
        };
        if need > buf_len {
            return Err(SdlError::sdl_err("surface buffer smaller than its rows"));
        }
        Ok(Surface { format, size, pitch, pixels })
    }

    /// The image size in pixels.
    pub fn size(&self) -> (s: Size)
        ensures
            s == self.size,
    {
        self.size
    }

    /// The image's pixel format.
    pub fn format(&self) -> (f: PixelFormat)
        ensures
            f == self.format,
    {
        self.format
    }

    /// The row pitch in bytes.
    pub fn pitch(&self) -> (p: usize)
        ensures
            p == self.pitch,
    {
        self.pitch
    }

    /// The raw pixel bytes.
    pub fn pixels(&self) -> (p: &Vec<u8>)
        ensures
            p == &self.pixels,
    {
        &self.pixels
    }

    /// An independent copy of the surface.
    pub fn duplicate(&self) -> (s: Surface)
        ensures
            s.format == self.format,
            s.size == self.size,
            s.pitch == self.pitch,
            s.pixels@ == self.pixels@,
    {
        let mut copy: Vec<u8> = Vec::new();
        let mut i: usize = 0;
        while i < self.pixels.len()
            invariant
                i <= self.pixels@.len(),
                copy@ == self.pixels@.subrange(0, i as int),
            decreases self.pixels@.len() - i,
        {
            copy.push(self.pixels[i]);
            assert(copy@ =~= self.pixels@.subrange(0, i + 1));
            i = i + 1;
        }
        assert(copy@ =~= self.pixels@);
        Surface { format: self.format, size: self.size, pitch: self.pitch, pixels: copy }
    }
}

/// A rectangle within a well-formed surface's bounds addresses rows that all
/// lie inside the surface's buffer.
pub proof fn lemma_surface_region_in_bounds(s: Surface, r: Rect)
    requires
        s.wf(),
        rect_in_bounds(r, s.size),
    ensures
        region_in_bounds(
            s.pixels@.len() as int,
            r.position.x as int,
            r.position.y as int,
            r.size.width as int,
            r.size.height as int,
            s.pitch as int,
            spec_bpp_of(s.format),
        ),
{
    let bpp = spec_bpp_of(s.format);
    let pitch = s.pitch as int;
    let len = s.pixels@.len() as int;
    let rx = r.position.x as int;
    let ry = r.position.y as int;
    let rw = r.size.width as int;
    let rh = r.size.height as int;
    let wi = s.size.width as int;
    let hi = s.size.height as int;
    assert forall|y: int| 0 <= y < rh implies #[trigger] row_start(rx, ry, y, pitch, bpp) + rw * bpp
        <= len by {
        assert((ry + y) * pitch + rx * bpp + rw * bpp <= hi * pitch) by (nonlinear_arith)
            requires
                ry + y < hi,
                rx + rw <= wi,
                wi * bpp <= pitch,
                bpp >= 0,
                ry + y >= 0,
                pitch >= 0,
        ;
    }
}

} // verus!
