use vstd::prelude::*;

use crate::raster::{pix, pixel_at, RasterImage};

verus! {

/// Buffer p1 of w x h pixels is the nearest-neighbor resampling of buffer p0
/// of w0 x h0 pixels: output pixel (x, y) copies source pixel
/// (x * w0 / w, y * h0 / h).
pub open spec fn resize_rel(p0: Seq<u8>, w0: int, h0: int, p1: Seq<u8>, w: int, h: int) -> bool {
    &&& p1.len() == 3 * w * h
    &&& forall|x: int, y: int|
        0 <= x < w && 0 <= y < h ==> #[trigger] pixel_at(p1, w, x, y) == pixel_at(
            p0,
            w0,
            x * w0 / w,
            y * h0 / h,
        )
}

/// Buffer p1 of w x h pixels is the rectangle of buffer p0 of w0 x h0 pixels
/// whose top-left corner sits at (x0, y0).
pub open spec fn crop_rel(
    p0: Seq<u8>,
    w0: int,
    h0: int,
    p1: Seq<u8>,
    x0: int,
    y0: int,
    w: int,
    h: int,
) -> bool {
    &&& p1.len() == 3 * w * h
    &&& forall|x: int, y: int|
        0 <= x < w && 0 <= y < h ==> #[trigger] pixel_at(p1, w, x, y) == pixel_at(
            p0,
            w0,
            x0 + x,
            y0 + y,
        )
}

/// The byte range of a pixel inside its w x h grid.
pub proof fn lemma_pix_bound(w: int, h: int, x: int, y: int)
    requires
        0 <= x < w,
        0 <= y < h,
    ensures
        0 <= pix(w, x, y),
        pix(w, x, y) + 2 < 3 * w * h,
{
    assert(0 <= y * w + x && 3 * (y * w + x) + 2 < 3 * w * h) by (nonlinear_arith)
        requires
            0 <= x < w,
            0 <= y < h,
    ;
}

/// Byte counts commute: 3 * (h * w) and 3 * w * h agree.
proof fn lemma_len_commute(w: int, h: int)
    ensures
        3 * (h * w) == 3 * w * h,
{
    assert(3 * (h * w) == 3 * w * h) by (nonlinear_arith);
}

/// A product of two values below 2^32 fits in 64 bits.
pub proof fn lemma_mul_fits_u64(a: int, b: int)
    requires
        0 <= a < 0x1_0000_0000,
        0 <= b < 0x1_0000_0000,
    ensures
        a * b <= 0xffff_ffff_ffff_ffff,
{
    vstd::arithmetic::mul::lemma_mul_upper_bound(a, 0xffff_ffff, b, 0xffff_ffff);
}

/// One more full row of w pixels extends the byte count by 3 * w.
proof fn lemma_row_step(y: int, w: int)
    ensures
        3 * ((y + 1) * w) == 3 * (y * w + w),
{
    assert(3 * ((y + 1) * w) == 3 * (y * w + w)) by (nonlinear_arith);
}

/// Pixels earlier in raster order occupy strictly earlier byte ranges.
pub proof fn lemma_pix_order(w: int, x1: int, y1: int, x2: int, y2: int)
    requires
        0 <= x1 < w,
        0 <= x2 < w,
        0 <= y1,
        0 <= y2,
        y1 < y2 || (y1 == y2 && x1 < x2),
    ensures
        pix(w, x1, y1) + 2 < pix(w, x2, y2),
{
    assert(y1 * w + x1 < y2 * w + x2) by (nonlinear_arith)
        requires
            0 <= x1 < w,
            0 <= x2 < w,
            0 <= y1,
            0 <= y2,
            y1 < y2 || (y1 == y2 && x1 < x2),
    ;
}

/// Nearest-neighbor resampling of src to a w x h raster.
#[verifier::loop_isolation(false)]
pub fn resize(src: &RasterImage, w: u32, h: u32) -> (r: RasterImage)
    requires
        src.wf(),
        src.width >= 1,
        src.height >= 1,
        w >= 1,
        h >= 1,
        3 * w * h <= usize::MAX,
    ensures
        r.width == w,
        r.height == h,
        r.wf(),
        resize_rel(src.pixels@, src.width as int, src.height as int, r.pixels@, w as int, h as int),
{
    let w0 = src.width;
    let h0 = src.height;
    let n = src.pixels.len();
    let mut out: Vec<u8> = Vec::new();
    let mut y: u32 = 0;
    while y < h
        invariant
            y <= h,
            out@.len() == 3 * (y * w),
            forall|xx: int, yy: int|
                0 <= xx < w && 0 <= yy < y ==> #[trigger] pixel_at(out@, w as int, xx, yy)
                    == pixel_at(src.pixels@, w0 as int, xx * w0 / (w as int), yy * h0 / (h as int)),
        decreases h - y,
    {
        proof {
            assert((y as int) * (h0 as int) < (h as int) * (h0 as int)) by (nonlinear_arith)
                requires
                    0 <= y < h,
                    h0 >= 1,
            ;
            vstd::arithmetic::div_mod::lemma_multiply_divide_lt(
                (y as int) * (h0 as int),
                h as int,
                h0 as int,
            );
            lemma_mul_fits_u64(y as int, h0 as int);
        }
        let sy: u32 = (((y as u64) * (h0 as u64)) / (h as u64)) as u32;
        let mut x: u32 = 0;
        while x < w
            invariant
                y < h,
                x <= w,
                sy == (y as int) * (h0 as int) / (h as int),
                sy < h0,
                out@.len() == 3 * ((y * w) + x),
                forall|xx: int, yy: int|
                    0 <= xx < w && 0 <= yy < y ==> #[trigger] pixel_at(out@, w as int, xx, yy)
                        == pixel_at(
                        src.pixels@,
                        w0 as int,
                        xx * w0 / (w as int),
                        yy * h0 / (h as int),
                    ),
                forall|xx: int|
                    0 <= xx < x ==> #[trigger] pixel_at(out@, w as int, xx, y as int) == pixel_at(
                        src.pixels@,
                        w0 as int,
                        xx * w0 / (w as int),
                        (y as int) * h0 / (h as int),
                    ),
            decreases w - x,
        {
            proof {
                assert((x as int) * (w0 as int) < (w as int) * (w0 as int)) by (nonlinear_arith)
                    requires
                        0 <= x < w,
                        w0 >= 1,
                ;
                vstd::arithmetic::div_mod::lemma_multiply_divide_lt(
                    (x as int) * (w0 as int),
                    w as int,
                    w0 as int,
                );
                lemma_pix_bound(w0 as int, h0 as int, (x as int) * w0 / (w as int), sy as int);
                lemma_pix_bound(w as int, h as int, x as int, y as int);
                lemma_len_commute(w0 as int, h0 as int);
                lemma_mul_fits_u64(x as int, w0 as int);
                lemma_mul_fits_u64(sy as int, w0 as int);
            }
            let sx: u32 = (((x as u64) * (w0 as u64)) / (w as u64)) as u32;
            proof {
                assert(3 * ((sy as int) * (w0 as int) + (sx as int)) + 2 < n as int);
            }
            let base: usize = (3u64 * ((sy as u64) * (w0 as u64) + (sx as u64))) as usize;
            let ghost out_before = out@;
            let b0 = src.pixels[base];
            let b1 = src.pixels[base + 1];
            let b2 = src.pixels[base + 2];
            out.push(b0);
            out.push(b1);
            out.push(b2);
            proof {
                assert(pixel_at(out@, w as int, x as int, y as int) == pixel_at(
                    src.pixels@,
                    w0 as int,
                    sx as int,
                    sy as int,
                ));
                assert forall|xx: int, yy: int|
                    0 <= xx < w && 0 <= yy <= y && (yy < y || xx < x) implies #[trigger] pixel_at(
                    out@,
                    w as int,
                    xx,
                    yy,
                ) == pixel_at(out_before, w as int, xx, yy) by {
                    lemma_pix_order(w as int, xx, yy, x as int, y as int);
                }
            }
            x = x + 1;
        }
        proof {
            lemma_row_step(y as int, w as int);
        }
        y = y + 1;
    }
    proof {
        lemma_len_commute(w as int, h as int);
    }
    RasterImage { width: w, height: h, pixels: out }
}

/// The w x h rectangle of src whose top-left corner sits at (x0, y0).
#[verifier::loop_isolation(false)]
pub fn crop(src: &RasterImage, x0: u32, y0: u32, w: u32, h: u32) -> (r: RasterImage)
    requires
        src.wf(),
        x0 + w <= src.width,
        y0 + h <= src.height,
        w >= 1,
        h >= 1,
    ensures
        r.width == w,
        r.height == h,
        r.wf(),
        crop_rel(
            src.pixels@,
            src.width as int,
            src.height as int,
            r.pixels@,
            x0 as int,
            y0 as int,
            w as int,
            h as int,
        ),
{
    let w0 = src.width;
    let h0 = src.height;
    proof {
        assert(3 * (w as int) * (h as int) <= 3 * (w0 as int) * (h0 as int)) by (nonlinear_arith)
            requires
                w <= w0,
                h <= h0,
                0 <= w,
                0 <= h,
        ;
    }
    let n = src.pixels.len();
    let mut out: Vec<u8> = Vec::new();
    let mut y: u32 = 0;
    while y < h
        invariant
            y <= h,
            out@.len() == 3 * (y * w),
            forall|xx: int, yy: int|
                0 <= xx < w && 0 <= yy < y ==> #[trigger] pixel_at(out@, w as int, xx, yy)
                    == pixel_at(src.pixels@, w0 as int, x0 + xx, y0 + yy),
        decreases h - y,
    {
        let mut x: u32 = 0;
        while x < w
            invariant
                y < h,
                x <= w,
                out@.len() == 3 * ((y * w) + x),
                forall|xx: int, yy: int|
                    0 <= xx < w && 0 <= yy < y ==> #[trigger] pixel_at(out@, w as int, xx, yy)
                        == pixel_at(src.pixels@, w0 as int, x0 + xx, y0 + yy),
                forall|xx: int|
                    0 <= xx < x ==> #[trigger] pixel_at(out@, w as int, xx, y as int) == pixel_at(
                        src.pixels@,
                        w0 as int,
                        x0 + xx,
                        y0 + y,
                    ),
            decreases w - x,
        {
            proof {
                lemma_pix_bound(w0 as int, h0 as int, x0 + x, y0 + y);
                lemma_pix_bound(w as int, h as int, x as int, y as int);
                lemma_mul_fits_u64((y0 + y) as int, w0 as int);
                assert(3 * (((y0 + y) as int) * (w0 as int) + ((x0 + x) as int)) + 2 < n as int);
            }
            let base: usize = (3u64 * (((y0 as u64) + (y as u64)) * (w0 as u64) + (x0 as u64) + (
            x as u64))) as usize;
            let ghost out_before = out@;
            let b0 = src.pixels[base];
            let b1 = src.pixels[base + 1];
            let b2 = src.pixels[base + 2];
            out.push(b0);
            out.push(b1);
            out.push(b2);
            proof {
                assert forall|xx: int, yy: int|
                    0 <= xx < w && 0 <= yy <= y && (yy < y || xx < x) implies #[trigger] pixel_at(
                    out@,
                    w as int,
                    xx,
                    yy,
                ) == pixel_at(out_before, w as int, xx, yy) by {
                    lemma_pix_order(w as int, xx, yy, x as int, y as int);
                }
            }
            x = x + 1;
        }
        proof {
            lemma_row_step(y as int, w as int);
        }
        y = y + 1;
    }
    proof {
        lemma_len_commute(w as int, h as int);
    }
    RasterImage { width: w, height: h, pixels: out }
}

} // verus!
