//! The pixel blitter: a format-aware strided rectangular copy between two
//! byte buffers.
//!
//! Both buffers are row-major with a caller-given pitch (bytes per row, which
//! may exceed the row's pixel bytes). The copy moves `src_rect.size` pixels
//! from the source, placing their top-left corner at `dst_pos` in the
//! destination. No bounds are checked at run time; the caller owes the bounds
//! stated in the contract.

use vstd::assert_by_contradiction;
use vstd::prelude::*;

use crate::error::SdlError;
use crate::geom::{Point, Rect};
use crate::pixel::{spec_bits_per_pixel, spec_bytes_per_pixel, PixelFormat};

verus! {

/// Byte offset where row `y` of a region with top-left pixel `(x0, y0)`
/// begins, in a buffer with the given pitch and bytes per pixel.
pub open spec fn row_start(x0: int, y0: int, y: int, pitch: int, bpp: int) -> int {
    (y0 + y) * pitch + x0 * bpp
}

/// Byte `k` of row `y` of the region, read from buffer `s`.
pub open spec fn region_byte(s: Seq<u8>, x0: int, y0: int, y: int, k: int, pitch: int, bpp: int) -> u8 {
    s[row_start(x0, y0, y, pitch, bpp) + k]
}

/// Whether all `h` rows of `w` pixels of the region lie inside a buffer of
/// `len` bytes.
pub open spec fn region_in_bounds(
    len: int,
    x0: int,
    y0: int,
    w: int,
    h: int,
    pitch: int,
    bpp: int,
) -> bool {
    forall|y: int|
        0 <= y < h ==> #[trigger] row_start(x0, y0, y, pitch, bpp) + w * bpp <= len
}

/// Whether byte index `i` falls on some row of the region.
pub open spec fn in_region(i: int, x0: int, y0: int, w: int, h: int, pitch: int, bpp: int) -> bool {
    exists|y: int|
        0 <= y < h && #[trigger] row_start(x0, y0, y, pitch, bpp) <= i < row_start(
            x0,
            y0,
            y,
            pitch,
            bpp,
        ) + w * bpp
}

/// The blit relation: every byte of the `w`-by-`h` region of `dst1` equals
/// the corresponding byte of the source region, and every byte outside the
/// destination region is unchanged from `dst0`.
pub open spec fn blitted(
    src: Seq<u8>,
    dst0: Seq<u8>,
    dst1: Seq<u8>,
    sx: int,
    sy: int,
    w: int,
    h: int,
    src_pitch: int,
    dx: int,
    dy: int,
    dst_pitch: int,
    bpp: int,
) -> bool {
    &&& dst1.len() == dst0.len()
    &&& forall|y: int, k: int|
        0 <= y < h && 0 <= k < w * bpp ==> #[trigger] region_byte(dst1, dx, dy, y, k, dst_pitch, bpp)
            == region_byte(src, sx, sy, y, k, src_pitch, bpp)
    &&& forall|i: int|
        0 <= i < dst0.len() && !in_region(i, dx, dy, w, h, dst_pitch, bpp) ==> dst1[i] == #[trigger] dst0[i]
}

/// Consecutive region rows in a buffer start at least one pitch apart.
proof fn lemma_row_start_gap(x0: int, y0: int, ya: int, yb: int, pitch: int, bpp: int)
    requires
        ya < yb,
        pitch >= 0,
    ensures
        row_start(x0, y0, ya, pitch, bpp) + pitch <= row_start(x0, y0, yb, pitch, bpp),
{
    assert((y0 + ya) * pitch + pitch <= (y0 + yb) * pitch) by (nonlinear_arith)
        requires
            ya < yb,
            pitch >= 0,
    ;
}

/// Law: a blit of a full `w`-by-`h` source from its origin to the
/// destination's origin, with one pitch on both sides, reproduces the
/// source bytes exactly over the occupied region.
pub proof fn lemma_blit_roundtrip(
    src: Seq<u8>,
    dst0: Seq<u8>,
    dst1: Seq<u8>,
    w: int,
    h: int,
    pitch: int,
    bpp: int,
)
    requires
        blitted(src, dst0, dst1, 0, 0, w, h, pitch, 0, 0, pitch, bpp),
    ensures
        forall|y: int, k: int|
            0 <= y < h && 0 <= k < w * bpp ==> #[trigger] region_byte(dst1, 0, 0, y, k, pitch, bpp)
                == region_byte(src, 0, 0, y, k, pitch, bpp),
{
}

/// Two rectangles that do not overlap occupy disjoint byte regions of a
/// row-major buffer whose pitch covers its full width.
pub proof fn lemma_disjoint_rects_disjoint_regions(
    a: crate::geom::Rect,
    b: crate::geom::Rect,
    bounds: crate::geom::Size,
    pitch: int,
    bpp: int,
    i: int,
)
    requires
        !crate::geom::rects_overlap(a, b),
        crate::geom::rect_in_bounds(a, bounds),
        crate::geom::rect_in_bounds(b, bounds),
        pitch == bounds.width * bpp,
        bpp > 0,
        in_region(
            i,
            a.position.x as int,
            a.position.y as int,
            a.size.width as int,
            a.size.height as int,
            pitch,
            bpp,
        ),
    ensures
        !in_region(
            i,
            b.position.x as int,
            b.position.y as int,
            b.size.width as int,
            b.size.height as int,
            pitch,
            bpp,
        ),
{
    let ax = a.position.x as int;
    let ay = a.position.y as int;
    let aw = a.size.width as int;
    let bx = b.position.x as int;
    let by = b.position.y as int;
    let bw = b.size.width as int;
    let wi = bounds.width as int;
    let ya = choose|y: int|
        0 <= y < a.size.height && #[trigger] row_start(ax, ay, y, pitch, bpp) <= i < row_start(
            ax,
            ay,
            y,
            pitch,
            bpp,
        ) + aw * bpp;
    assert((ax + aw) * bpp <= wi * bpp && ax * bpp >= 0 && aw * bpp <= (ax + aw) * bpp
        && ax * bpp + aw * bpp == (ax + aw) * bpp) by (nonlinear_arith)
        requires
            0 <= ax,
            0 <= aw,
            ax + aw <= wi,
            bpp > 0,
    ;
    assert_by_contradiction!(!in_region(
        i,
        bx,
        by,
        bw,
        b.size.height as int,
        pitch,
        bpp,
    ), {
        let yb = choose|y: int|
            0 <= y < b.size.height && #[trigger] row_start(bx, by, y, pitch, bpp) <= i < row_start(
                bx,
                by,
                y,
                pitch,
                bpp,
            ) + bw * bpp;
        assert((bx + bw) * bpp <= wi * bpp && bx * bpp >= 0 && bw * bpp <= (bx + bw) * bpp
            && bx * bpp + bw * bpp == (bx + bw) * bpp) by (nonlinear_arith)
            requires
                0 <= bx,
                0 <= bw,
                bx + bw <= wi,
                bpp > 0,
        ;
        // Both rows own a byte span inside one pitch-wide row, so the two
        // row indices agree.
        let ra = ay + ya;
        let rb = by + yb;
        let oa = i - ra * pitch;
        let ob = i - rb * pitch;
        assert(ax * bpp <= oa < (ax + aw) * bpp);
        assert(bx * bpp <= ob < (bx + bw) * bpp);
        assert(0 <= oa < pitch && 0 <= ob < pitch);
        assert(ra == rb) by (nonlinear_arith)
            requires
                ra * pitch + oa == rb * pitch + ob,
                0 <= oa < pitch,
                0 <= ob < pitch,
        ;
        // Same row: the vertical ranges meet; same byte offset: the
        // horizontal ranges meet. So the rectangles overlap after all.
        assert(a.position.y <= ra < a.position.y + a.size.height);
        assert(b.position.y <= ra < b.position.y + b.size.height);
        assert(ax < bx + bw && bx < ax + aw) by (nonlinear_arith)
            requires
                ax * bpp <= oa,
                oa < (ax + aw) * bpp,
                bx * bpp <= oa,
                oa < (bx + bw) * bpp,
                bpp > 0,
        ;
        assert(crate::geom::rects_overlap(a, b));
    });
}

/// Copy `src_rect.size` pixels from `src` into `dst`, placing the top-left
/// at `dst_pos`. Fails exactly when the format's bits-per-pixel value is
/// unsupported; on failure the destination is untouched.
pub fn copy_pixels(
    src: &[u8],
    src_rect: Rect,
    src_pitch: usize,
    dst: &mut Vec<u8>,
    dst_pos: Point,
    dst_pitch: usize,
    pixel_format: PixelFormat,
) -> (r: Result<(), SdlError>)
    requires
        (spec_bytes_per_pixel(spec_bits_per_pixel(pixel_format)) matches Some(bpp) ==> {
            &&& region_in_bounds(
                src@.len() as int,
                src_rect.position.x as int,
                src_rect.position.y as int,
                src_rect.size.width as int,
                src_rect.size.height as int,
                src_pitch as int,
                bpp as int,
            )
            &&& region_in_bounds(
                old(dst)@.len() as int,
                dst_pos.x as int,
                dst_pos.y as int,
                src_rect.size.width as int,
                src_rect.size.height as int,
                dst_pitch as int,
                bpp as int,
            )
            &&& src_rect.position.y + src_rect.size.height <= usize::MAX
            &&& dst_pos.y + src_rect.size.height <= usize::MAX
            &&& src_rect.size.height > 1 ==> src_rect.size.width * bpp <= dst_pitch
        }),
    ensures
        match r {
            Ok(()) => (spec_bytes_per_pixel(spec_bits_per_pixel(pixel_format)) matches Some(bpp)
                && blitted(
                src@,
                old(dst)@,
                final(dst)@,
                src_rect.position.x as int,
                src_rect.position.y as int,
                src_rect.size.width as int,
                src_rect.size.height as int,
                src_pitch as int,
                dst_pos.x as int,
                dst_pos.y as int,
                dst_pitch as int,
                bpp as int,
            )),
            Err(e) => {
                &&& spec_bytes_per_pixel(spec_bits_per_pixel(pixel_format)) is None
                &&& final(dst)@ == old(dst)@
                &&& e matches SdlError::SdlError(_)
            },
        },
{
    let bpp: usize = match pixel_format.bytes_per_pixel() {
        Some(b) => b as usize,
        None => {
            return Err(SdlError::sdl_err("unsupported pixel format because of unsupported bitspixel"));
        },
    };

    let w: usize = src_rect.size.width as usize;
    let h: usize = src_rect.size.height as usize;
    let sx: usize = src_rect.position.x as usize;
    let sy: usize = src_rect.position.y as usize;
    let dx: usize = dst_pos.x as usize;
    let dy: usize = dst_pos.y as usize;

    let ghost gsx: int = sx as int;
    let ghost gsy: int = sy as int;
    let ghost gdx: int = dx as int;
    let ghost gdy: int = dy as int;
    let ghost gw: int = w as int;
    let ghost gh: int = h as int;
    let ghost gsp: int = src_pitch as int;
    let ghost gdp: int = dst_pitch as int;
    let ghost gb: int = bpp as int;

    if h == 0 {
        assert(blitted(src@, old(dst)@, dst@, gsx, gsy, gw, gh, gsp, gdx, gdy, gdp, gb));
        return Ok(());
    }

    let src_len: usize = src.len();
    let dst_len: usize = dst.len();
    assert(src_len == src@.len() && dst_len == dst@.len());
    proof {
        // Row 0 of each region is in bounds, so a row's bytes fit the buffers.
        assert(row_start(gsx, gsy, 0, gsp, gb) + gw * gb <= src@.len());
        assert(row_start(gdx, gdy, 0, gdp, gb) + gw * gb <= dst@.len());
        assert(gsy * gsp >= 0 && gsx * gb >= 0 && gw * gb >= 0 && gdy * gdp >= 0 && gdx * gb >= 0)
            by (nonlinear_arith)
            requires
                gsy >= 0,
                gsp >= 0,
                gsx >= 0,
                gb >= 0,
                gw >= 0,
                gdy >= 0,
                gdp >= 0,
                gdx >= 0,
        ;
    }
    let row_bytes: usize = w * bpp;

    let mut y: usize = 0;
    while y < h
        invariant
            0 <= y <= h,
            h > 0,
            gsx == sx as int && gsy == sy as int && gdx == dx as int && gdy == dy as int,
            gw == w as int && gh == h as int && gsp == src_pitch as int && gdp == dst_pitch as int,
            gb == bpp as int,
            gb > 0,
            row_bytes == gw * gb,
            sy + h <= usize::MAX,
            dy + h <= usize::MAX,
            h > 1 ==> gw * gb <= gdp,
            src@.len() <= usize::MAX,
            dst@.len() <= usize::MAX,
            region_in_bounds(src@.len() as int, gsx, gsy, gw, gh, gsp, gb),
            region_in_bounds(dst@.len() as int, gdx, gdy, gw, gh, gdp, gb),
            dst@.len() == old(dst)@.len(),
            forall|yy: int, k: int|
                0 <= yy < y && 0 <= k < gw * gb ==> #[trigger] region_byte(
                    dst@,
                    gdx,
                    gdy,
                    yy,
                    k,
                    gdp,
                    gb,
                ) == region_byte(src@, gsx, gsy, yy, k, gsp, gb),
            forall|i: int|
                0 <= i < dst@.len() && !in_region(i, gdx, gdy, gw, gh, gdp, gb) ==> dst@[i]
                    == #[trigger] old(dst)@[i],
        decreases h - y,
    {
        proof {
            assert(row_start(gsx, gsy, y as int, gsp, gb) + gw * gb <= src@.len());
            assert(row_start(gdx, gdy, y as int, gdp, gb) + gw * gb <= dst@.len());
            assert((gsy + y) * gsp >= 0 && (gdy + y) * gdp >= 0 && gsx * gb >= 0 && gdx * gb >= 0
                && gw * gb >= 0) by (nonlinear_arith)
                requires
                    gsy >= 0,
                    y >= 0,
                    gsp >= 0,
                    gdy >= 0,
                    gdp >= 0,
                    gsx >= 0,
                    gdx >= 0,
                    gw >= 0,
                    gb >= 0,
            ;
        }
        let src_row: usize = (sy + y) * src_pitch + sx * bpp;
        let dst_row: usize = (dy + y) * dst_pitch + dx * bpp;
        assert(src_row as int == row_start(gsx, gsy, y as int, gsp, gb));
        assert(dst_row as int == row_start(gdx, gdy, y as int, gdp, gb));

        let mut k: usize = 0;
        while k < row_bytes
            invariant
                0 <= k <= row_bytes,
                0 <= y < h,
                gsx == sx as int && gsy == sy as int && gdx == dx as int && gdy == dy as int,
                gw == w as int && gh == h as int && gsp == src_pitch as int && gdp == dst_pitch
                    as int,
                gb == bpp as int,
                gb > 0,
                row_bytes == gw * gb,
                h > 1 ==> gw * gb <= gdp,
                src@.len() <= usize::MAX,
                dst@.len() <= usize::MAX,
                region_in_bounds(src@.len() as int, gsx, gsy, gw, gh, gsp, gb),
                region_in_bounds(dst@.len() as int, gdx, gdy, gw, gh, gdp, gb),
                src_row as int == row_start(gsx, gsy, y as int, gsp, gb),
                dst_row as int == row_start(gdx, gdy, y as int, gdp, gb),
                dst@.len() == old(dst)@.len(),
                forall|kk: int|
                    0 <= kk < k ==> #[trigger] region_byte(dst@, gdx, gdy, y as int, kk, gdp, gb)
                        == region_byte(src@, gsx, gsy, y as int, kk, gsp, gb),
                forall|yy: int, kk: int|
                    0 <= yy < y && 0 <= kk < gw * gb ==> #[trigger] region_byte(
                        dst@,
                        gdx,
                        gdy,
                        yy,
                        kk,
                        gdp,
                        gb,
                    ) == region_byte(src@, gsx, gsy, yy, kk, gsp, gb),
                forall|i: int|
                    0 <= i < dst@.len() && !in_region(i, gdx, gdy, gw, gh, gdp, gb) ==> dst@[i]
                        == #[trigger] old(dst)@[i],
            decreases row_bytes - k,
        {
            let b = src[src_row + k];
            let ghost pre: Seq<u8> = dst@;
            let ghost di: int = dst_row + k;
            dst[dst_row + k] = b;
            proof {
                assert(dst@ == pre.update(di as int, b));
                // The written byte lies on row `y` of the destination region.
                assert(in_region(di as int, gdx, gdy, gw, gh, gdp, gb)) by {
                    assert(0 <= y < gh && row_start(gdx, gdy, y as int, gdp, gb) <= di < row_start(
                        gdx,
                        gdy,
                        y as int,
                        gdp,
                        gb,
                    ) + gw * gb);
                }
                // The byte just written equals the matching source byte.
                assert(region_byte(dst@, gdx, gdy, y as int, k as int, gdp, gb) == region_byte(
                    src@,
                    gsx,
                    gsy,
                    y as int,
                    k as int,
                    gsp,
                    gb,
                ));
                // Earlier bytes of this row are untouched by the write.
                assert forall|kk: int| 0 <= kk < k implies #[trigger] region_byte(
                    dst@,
                    gdx,
                    gdy,
                    y as int,
                    kk,
                    gdp,
                    gb,
                ) == region_byte(src@, gsx, gsy, y as int, kk, gsp, gb) by {
                    assert(row_start(gdx, gdy, y as int, gdp, gb) + kk < di);
                    assert(region_byte(pre, gdx, gdy, y as int, kk, gdp, gb) == region_byte(
                        src@,
                        gsx,
                        gsy,
                        y as int,
                        kk,
                        gsp,
                        gb,
                    ));
                }
                // Bytes of earlier rows are untouched: those rows end before
                // row `y` begins.
                assert forall|yy: int, kk: int|
                    0 <= yy < y && 0 <= kk < gw * gb implies #[trigger] region_byte(
                    dst@,
                    gdx,
                    gdy,
                    yy,
                    kk,
                    gdp,
                    gb,
                ) == region_byte(src@, gsx, gsy, yy, kk, gsp, gb) by {
                    lemma_row_start_gap(gdx, gdy, yy, y as int, gdp, gb);
                    assert(gw * gb <= gdp);
                    assert(row_start(gdx, gdy, yy, gdp, gb) + kk < di);
                    assert(dst@[row_start(gdx, gdy, yy, gdp, gb) + kk] == pre[row_start(
                        gdx,
                        gdy,
                        yy,
                        gdp,
                        gb,
                    ) + kk]);
                    assert(region_byte(pre, gdx, gdy, yy, kk, gdp, gb) == region_byte(
                        src@,
                        gsx,
                        gsy,
                        yy,
                        kk,
                        gsp,
                        gb,
                    ));
                }
            }
            k = k + 1;
        }
        y = y + 1;
    }
    Ok(())
}

} // verus!
