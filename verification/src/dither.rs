use vstd::prelude::*;

use crate::palette::{
    abs_diff, abs_diff_spec, color_view, lemma_nearest_index_agrees, nearest_index, Palette,
};
use crate::raster::{pix, pixel_at, RasterImage};
use crate::resize::{lemma_pix_bound, lemma_pix_order};

verus! {

/// Every pixel of the w x h buffer p is an exact member of pal.
pub open spec fn all_pixels_in(p: Seq<u8>, w: int, h: int, pal: Seq<(u8, u8, u8)>) -> bool {
    forall|x: int, y: int|
        0 <= x < w && 0 <= y < h ==> pal.contains(#[trigger] pixel_at(p, w, x, y))
}

/// Channel value v moved by weight/16 of an error of magnitude mag, upward
/// when add holds and downward otherwise, clamped to the 8-bit range.
pub open spec fn spread_spec(v: u8, mag: int, add: bool, weight: int) -> u8 {
    let delta = mag * weight / 16;
    if add {
        if v + delta > 255 {
            255u8
        } else {
            (v + delta) as u8
        }
    } else {
        if delta > v {
            0u8
        } else {
            (v - delta) as u8
        }
    }
}

/// The buffer after pixel (x, y) is overwritten with color t.
pub open spec fn write_pixel_spec(p: Seq<u8>, w: int, x: int, y: int, t: (u8, u8, u8)) -> Seq<
    u8,
> {
    let b = pix(w, x, y);
    p.update(b, t.0).update(b + 1, t.1).update(b + 2, t.2)
}

/// The buffer after weight/16 of the error of quantizing color c to match
/// color m is added to pixel (tx, ty), channel by channel, clamped.
pub open spec fn diffuse_spec(
    p: Seq<u8>,
    w: int,
    tx: int,
    ty: int,
    c: (u8, u8, u8),
    m: (u8, u8, u8),
    weight: int,
) -> Seq<u8> {
    let b = pix(w, tx, ty);
    p.update(b, spread_spec(p[b], abs_diff_spec(c.0, m.0), c.0 >= m.0, weight)).update(
        b + 1,
        spread_spec(p[b + 1], abs_diff_spec(c.1, m.1), c.1 >= m.1, weight),
    ).update(b + 2, spread_spec(p[b + 2], abs_diff_spec(c.2, m.2), c.2 >= m.2, weight))
}

/// One dither step at pixel (x, y) of the w x h buffer p: the current color
/// is quantized against mseq, the output color from dseq replaces it, and
/// the error is pushed to the in-bounds unvisited neighbors with the
/// Floyd-Steinberg weights: 7/16 right, 3/16 below left, 5/16 below, 1/16
/// below right.
pub open spec fn dither_step_spec(
    mseq: Seq<(u8, u8, u8)>,
    dseq: Seq<(u8, u8, u8)>,
    w: int,
    h: int,
    p: Seq<u8>,
    x: int,
    y: int,
) -> Seq<u8> {
    let c = pixel_at(p, w, x, y);
    let i = nearest_index(mseq, c);
    let m = mseq[i];
    let p1 = write_pixel_spec(p, w, x, y, dseq[i]);
    let p2 = if x + 1 < w {
        diffuse_spec(p1, w, x + 1, y, c, m, 7)
    } else {
        p1
    };
    let p3 = if y + 1 < h && x >= 1 {
        diffuse_spec(p2, w, x - 1, y + 1, c, m, 3)
    } else {
        p2
    };
    let p4 = if y + 1 < h {
        diffuse_spec(p3, w, x, y + 1, c, m, 5)
    } else {
        p3
    };
    if y + 1 < h && x + 1 < w {
        diffuse_spec(p4, w, x + 1, y + 1, c, m, 1)
    } else {
        p4
    }
}

/// The buffer after the first k dither steps, taken in raster order.
pub open spec fn dither_upto_spec(
    mseq: Seq<(u8, u8, u8)>,
    dseq: Seq<(u8, u8, u8)>,
    w: int,
    h: int,
    p: Seq<u8>,
    k: nat,
) -> Seq<u8>
    decreases k,
{
    if k == 0 {
        p
    } else {
        let prev = dither_upto_spec(mseq, dseq, w, h, p, (k - 1) as nat);
        dither_step_spec(mseq, dseq, w, h, prev, ((k - 1) as int) % w, ((k - 1) as int) / w)
    }
}

/// Channel value v moved by weight/16 of an error of magnitude mag, upward
/// when add holds and downward otherwise, clamped to the 8-bit range.
fn spread(v: u8, mag: u8, add: bool, weight: u32) -> (r: u8)
    requires
        weight <= 7,
    ensures
        r == spread_spec(v, mag as int, add, weight as int),
{
    proof {
        assert((mag as int) * (weight as int) <= 255 * 7) by (nonlinear_arith)
            requires
                0 <= mag <= 255,
                0 <= weight <= 7,
        ;
        assert((mag as int) * (weight as int) >= 0) by (nonlinear_arith)
            requires
                0 <= mag,
                0 <= weight,
        ;
    }
    let delta: u32 = (mag as u32) * weight / 16;
    if add {
        let s: u32 = v as u32 + delta;
        if s > 255 {
            255u8
        } else {
            s as u8
        }
    } else {
        if delta > v as u32 {
            0u8
        } else {
            (v as u32 - delta) as u8
        }
    }
}

/// Overwrites the three bytes of pixel (x, y) and nothing else.
fn set_pixel(img: &mut RasterImage, x: u32, y: u32, c: [u8; 3])
    requires
        old(img).wf(),
        x < old(img).width,
        y < old(img).height,
    ensures
        final(img).width == old(img).width,
        final(img).height == old(img).height,
        final(img).wf(),
        final(img).pixels@ == write_pixel_spec(
            old(img).pixels@,
            old(img).width as int,
            x as int,
            y as int,
            color_view(c),
        ),
        pixel_at(final(img).pixels@, old(img).width as int, x as int, y as int) == color_view(c),
        forall|xx: int, yy: int|
            0 <= xx < old(img).width && 0 <= yy < old(img).height && !(xx == x && yy == y)
                ==> #[trigger] pixel_at(final(img).pixels@, old(img).width as int, xx, yy)
                == pixel_at(old(img).pixels@, old(img).width as int, xx, yy),
{
    let w = img.width;
    let h = img.height;
    let n = img.pixels.len();
    proof {
        lemma_pix_bound(w as int, h as int, x as int, y as int);
        crate::resize::lemma_mul_fits_u64(y as int, w as int);
        assert(3 * ((y as int) * (w as int) + (x as int)) + 2 < n as int);
    }
    let base: usize = (3u64 * ((y as u64) * (w as u64) + (x as u64))) as usize;
    img.pixels[base] = c[0];
    img.pixels[base + 1] = c[1];
    img.pixels[base + 2] = c[2];
    proof {
        assert forall|xx: int, yy: int|
            0 <= xx < w && 0 <= yy < h && !(xx == x && yy == y) implies #[trigger] pixel_at(
            img.pixels@,
            w as int,
            xx,
            yy,
        ) == pixel_at(old(img).pixels@, w as int, xx, yy) by {
            if yy < y || (yy == y && xx < x) {
                lemma_pix_order(w as int, xx, yy, x as int, y as int);
            } else {
                lemma_pix_order(w as int, x as int, y as int, xx, yy);
            }
            lemma_pix_bound(w as int, h as int, xx, yy);
        }
    }
}

/// Adds weight/16 of the error of quantizing color cur to match color mc to
/// pixel (tx, ty), clamped per channel; no other pixel changes.
fn diffuse_pixel(img: &mut RasterImage, tx: u32, ty: u32, cur: [u8; 3], mc: [u8; 3], weight: u32)
    requires
        old(img).wf(),
        tx < old(img).width,
        ty < old(img).height,
        weight <= 7,
    ensures
        final(img).width == old(img).width,
        final(img).height == old(img).height,
        final(img).wf(),
        final(img).pixels@ == diffuse_spec(
            old(img).pixels@,
            old(img).width as int,
            tx as int,
            ty as int,
            color_view(cur),
            color_view(mc),
            weight as int,
        ),
        forall|xx: int, yy: int|
            0 <= xx < old(img).width && 0 <= yy < old(img).height && !(xx == tx && yy == ty)
                ==> #[trigger] pixel_at(final(img).pixels@, old(img).width as int, xx, yy)
                == pixel_at(old(img).pixels@, old(img).width as int, xx, yy),
{
    let w = img.width;
    let h = img.height;
    let n = img.pixels.len();
    proof {
        lemma_pix_bound(w as int, h as int, tx as int, ty as int);
        crate::resize::lemma_mul_fits_u64(ty as int, w as int);
        assert(3 * ((ty as int) * (w as int) + (tx as int)) + 2 < n as int);
    }
    let base: usize = (3u64 * ((ty as u64) * (w as u64) + (tx as u64))) as usize;
    let n0 = spread(img.pixels[base], abs_diff(cur[0], mc[0]), cur[0] >= mc[0], weight);
    let n1 = spread(img.pixels[base + 1], abs_diff(cur[1], mc[1]), cur[1] >= mc[1], weight);
    let n2 = spread(img.pixels[base + 2], abs_diff(cur[2], mc[2]), cur[2] >= mc[2], weight);
    img.pixels[base] = n0;
    img.pixels[base + 1] = n1;
    img.pixels[base + 2] = n2;
    proof {
        assert forall|xx: int, yy: int|
            0 <= xx < w && 0 <= yy < h && !(xx == tx && yy == ty) implies #[trigger] pixel_at(
            img.pixels@,
            w as int,
            xx,
            yy,
        ) == pixel_at(old(img).pixels@, w as int, xx, yy) by {
            if yy < ty || (yy == ty && xx < tx) {
                lemma_pix_order(w as int, xx, yy, tx as int, ty as int);
            } else {
                lemma_pix_order(w as int, tx as int, ty as int, xx, yy);
            }
            lemma_pix_bound(w as int, h as int, xx, yy);
        }
    }
}

/// Error-diffusion dither over the whole raster, in raster order, with the
/// Floyd-Steinberg kernel: the buffer becomes exactly the w * h step fold of
/// dither_step_spec, and afterwards every pixel is, bit for bit, an entry of
/// the palette's output color set.
#[verifier::loop_isolation(false)]
pub fn dither(img: &mut RasterImage, palette: &Palette)
    requires
        old(img).wf(),
        palette.wf(),
    ensures
        final(img).width == old(img).width,
        final(img).height == old(img).height,
        final(img).wf(),
        final(img).pixels@ == dither_upto_spec(
            palette.match_seq(),
            palette.display_seq(),
            old(img).width as int,
            old(img).height as int,
            old(img).pixels@,
            (old(img).width * old(img).height) as nat,
        ),
        all_pixels_in(
            final(img).pixels@,
            old(img).width as int,
            old(img).height as int,
            palette.display_seq(),
        ),
{
    let w = img.width;
    let h = img.height;
    let ghost mseq = palette.match_seq();
    let ghost dseq = palette.display_seq();
    let ghost p_init = img.pixels@;
    let mut y: u32 = 0;
    while y < h
        invariant
            img.width == w,
            img.height == h,
            img.wf(),
            y <= h,
            img.pixels@ == dither_upto_spec(
                mseq,
                dseq,
                w as int,
                h as int,
                p_init,
                ((y as int) * (w as int)) as nat,
            ),
            forall|xx: int, yy: int|
                0 <= xx < w && 0 <= yy < y ==> dseq.contains(
                    #[trigger] pixel_at(img.pixels@, w as int, xx, yy),
                ),
        decreases h - y,
    {
        let mut x: u32 = 0;
        while x < w
            invariant
                img.width == w,
                img.height == h,
                img.wf(),
                y < h,
                x <= w,
                img.pixels@ == dither_upto_spec(
                    mseq,
                    dseq,
                    w as int,
                    h as int,
                    p_init,
                    ((y as int) * (w as int) + (x as int)) as nat,
                ),
                forall|xx: int, yy: int|
                    0 <= xx < w && 0 <= yy < y ==> dseq.contains(
                        #[trigger] pixel_at(img.pixels@, w as int, xx, yy),
                    ),
                forall|xx: int|
                    0 <= xx < x ==> dseq.contains(
                        #[trigger] pixel_at(img.pixels@, w as int, xx, y as int),
                    ),
            decreases w - x,
        {
            let ghost p_k = img.pixels@;
            let ghost k = (y as int) * (w as int) + (x as int);
            let n = img.pixels.len();
            proof {
                lemma_pix_bound(w as int, h as int, x as int, y as int);
                crate::resize::lemma_mul_fits_u64(y as int, w as int);
                assert(3 * k + 2 < n as int);
            }
            let base: usize = (3u64 * ((y as u64) * (w as u64) + (x as u64))) as usize;
            let cur: [u8; 3] = [img.pixels[base], img.pixels[base + 1], img.pixels[base + 2]];
            proof {
                assert(color_view(cur) == pixel_at(p_k, w as int, x as int, y as int));
            }
            let i = palette.index_of(&cur);
            proof {
                lemma_nearest_index_agrees(mseq, color_view(cur), i as int);
                palette.lemma_display_len();
            }
            let out_color = palette.lookup(i).unwrap();
            let mc = palette.match_color_at(i);
            set_pixel(img, x, y, out_color);
            if x + 1 < w {
                diffuse_pixel(img, x + 1, y, cur, mc, 7);
            }
            if y + 1 < h {
                if x >= 1 {
                    diffuse_pixel(img, x - 1, y + 1, cur, mc, 3);
                }
                diffuse_pixel(img, x, y + 1, cur, mc, 5);
                if x + 1 < w {
                    diffuse_pixel(img, x + 1, y + 1, cur, mc, 1);
                }
            }
            proof {
                assert(img.pixels@ == dither_step_spec(
                    mseq,
                    dseq,
                    w as int,
                    h as int,
                    p_k,
                    x as int,
                    y as int,
                ));
                vstd::arithmetic::div_mod::lemma_fundamental_div_mod_converse(
                    k,
                    w as int,
                    y as int,
                    x as int,
                );
                assert(img.pixels@ == dither_upto_spec(
                    mseq,
                    dseq,
                    w as int,
                    h as int,
                    p_init,
                    (k + 1) as nat,
                ));
                assert(pixel_at(img.pixels@, w as int, x as int, y as int) == color_view(
                    out_color,
                ));
                assert(dseq[i as int] == color_view(out_color));
                assert(dseq.contains(color_view(out_color)));
            }
            x = x + 1;
        }
        proof {
            assert((y as int) * (w as int) + (w as int) == ((y as int) + 1) * (w as int))
                by (nonlinear_arith);
        }
        y = y + 1;
    }
    proof {
        assert((h as int) * (w as int) == (w as int) * (h as int)) by (nonlinear_arith);
    }
}

} // verus!
