use vstd::prelude::*;

use crate::dither::{all_pixels_in, dither, dither_upto_spec};
use crate::palette::{display_palette_spec, match_palette_spec, palette_for, DitherType};
use crate::raster::RasterImage;
use crate::resize::{crop, crop_rel, lemma_mul_fits_u64, resize, resize_rel};

verus! {

/// The error kinds a request can end in. The first two are raised by the
/// serving layer before the pipeline runs; the pipeline itself reports decode
/// failures and rejects dimension requests whose rasters it cannot compute or
/// encode. An encoder refusal is kept as its own kind for the serving layer,
/// though the pipeline validates dimensions up front and so never returns it.
#[derive(Clone, Copy, Debug, PartialEq, Eq, Structural)]
pub enum TransformError {
    NotFound,
    NotAnImage,
    DecodeFailure,
    EncodeFailure,
    InvalidDimensions,
}

/// The transform parameters of one request. Either, both or neither dimension
/// may be present; dithering is independent of resizing.
#[derive(Clone, Copy, Debug)]
pub struct ImageTransformOptions {
    pub width: Option<u32>,
    pub height: Option<u32>,
    pub dither: Option<DitherType>,
}

/// No transform requested at all: the pipeline passes the bytes through.
pub open spec fn options_empty(o: ImageTransformOptions) -> bool {
    o.width is None && o.height is None && o.dither is None
}

/// How a source raster of w0 x h0 reaches the requested dimensions.
#[derive(Clone, Copy, Debug, PartialEq, Eq, Structural)]
pub enum ResizePlan {
    /// No dimension given: the raster is left as it is.
    Keep,
    /// One dimension given: the other preserves the source aspect ratio and
    /// the raster is resized directly, without cropping.
    Exact { w: u32, h: u32 },
    /// Both given and the request is not wider than the source: resize to
    /// height h at width iw >= w, then crop x0 columns in from the left.
    CropTall { w: u32, h: u32, iw: u32, x0: u32 },
    /// Both given and the request is wider than the source: resize to width w
    /// at height ih >= h, then crop y0 rows down from the top.
    CropWide { w: u32, h: u32, ih: u32, y0: u32 },
}

/// The plan for a w0 x h0 source and the requested dimensions. A missing
/// dimension is the scaled counterpart of the given one, truncated; when both
/// are given, the requested ratio w/h is compared against the source ratio
/// w0/h0 by cross-multiplication, the matched dimension is resized to
/// exactly, and half the excess of the other, truncated, becomes the crop
/// offset.
pub open spec fn plan_of(w0: int, h0: int, ow: Option<u32>, oh: Option<u32>) -> ResizePlan {
    match (ow, oh) {
        (Option::None, Option::None) => ResizePlan::Keep,
        (Option::Some(w), Option::None) => ResizePlan::Exact {
            w,
            h: (h0 * w / w0) as u32,
        },
        (Option::None, Option::Some(h)) => ResizePlan::Exact {
            w: (w0 * h / h0) as u32,
            h,
        },
        (Option::Some(w), Option::Some(h)) => {
            if w * h0 > h * w0 {
                let ih = h0 * w / w0;
                ResizePlan::CropWide { w, h, ih: ih as u32, y0: ((ih - h) / 2) as u32 }
            } else {
                let iw = w0 * h / h0;
                ResizePlan::CropTall { w, h, iw: iw as u32, x0: ((iw - w) / 2) as u32 }
            }
        },
    }
}

/// The bytes each BMP pixel row of w RGB pixels is padded with, up to a
/// multiple of four.
pub open spec fn bmp_row_pad(w: int) -> int {
    (4 - (3 * w) % 4) % 4
}

/// The raster fits the BMP container the encoder writes: the row byte count
/// stays within 32 bits, and the whole file -- 54 header bytes plus the
/// padded pixel rows -- stays within the format's 32-bit size field. The
/// encoder computes these sizes in 32-bit arithmetic, so rasters beyond them
/// cannot be encoded.
pub open spec fn bmp_fits(w: int, h: int) -> bool {
    &&& 3 * w <= u32::MAX
    &&& 54 + (3 * w * h + h * bmp_row_pad(w)) <= u32::MAX
}

/// A raster within the BMP bound also fits in a byte vector.
pub proof fn lemma_bmp_fits_bound(w: int, h: int)
    requires
        w >= 0,
        h >= 0,
        bmp_fits(w, h),
    ensures
        3 * w * h <= u32::MAX,
        3 * w * h <= usize::MAX,
{
    assert(0 <= bmp_row_pad(w) <= 3);
    assert(h * bmp_row_pad(w) >= 0) by (nonlinear_arith)
        requires
            h >= 0,
            bmp_row_pad(w) >= 0,
    ;
}

/// Whether the raster dimensions fit the BMP container.
fn bmp_fits_check(w: u32, h: u32) -> (r: bool)
    ensures
        r == bmp_fits(w as int, h as int),
{
    let row: u64 = 3u64 * (w as u64);
    if row > u32::MAX as u64 {
        return false;
    }
    let pad: u64 = (4 - row % 4) % 4;
    proof {
        assert((row as int) * (h as int) <= 0xffff_fffe_0000_0001) by (nonlinear_arith)
            requires
                0 <= row <= 0xffff_ffff,
                0 <= h <= 0xffff_ffff,
        ;
        assert(0 <= (h as int) * (pad as int) <= 3 * 0xffff_ffff) by (nonlinear_arith)
            requires
                0 <= h <= 0xffff_ffff,
                0 <= pad <= 3,
        ;
    }
    let body: u64 = row * (h as u64);
    if body > u32::MAX as u64 {
        return false;
    }
    let total: u64 = 54 + (body + (h as u64) * pad);
    total <= u32::MAX as u64
}

/// Every requested and computed dimension is at least 1 and fits in 32 bits,
/// every intermediate buffer fits in a byte vector, and the final raster fits
/// the BMP container it is encoded into.
pub open spec fn plan_valid(w0: int, h0: int, ow: Option<u32>, oh: Option<u32>) -> bool {
    match (ow, oh) {
        (Option::None, Option::None) => bmp_fits(w0, h0),
        (Option::Some(w), Option::None) => {
            let hh = h0 * w / w0;
            w >= 1 && hh >= 1 && hh <= u32::MAX && bmp_fits(w as int, hh)
        },
        (Option::None, Option::Some(h)) => {
            let ww = w0 * h / h0;
            h >= 1 && ww >= 1 && ww <= u32::MAX && bmp_fits(ww, h as int)
        },
        (Option::Some(w), Option::Some(h)) => {
            w >= 1 && h >= 1 && bmp_fits(w as int, h as int) && if w * h0 > h * w0 {
                let ih = h0 * w / w0;
                ih <= u32::MAX && 3 * w * ih <= usize::MAX
            } else {
                let iw = w0 * h / h0;
                iw <= u32::MAX && 3 * iw * h <= usize::MAX
            }
        },
    }
}

/// When the request is strictly wider than the source, the intermediate
/// height h0 * w / w0 covers the requested height.
pub proof fn lemma_wide_intermediate(w0: int, h0: int, w: int, h: int)
    requires
        w0 >= 1,
        h0 >= 1,
        w >= 1,
        h >= 1,
        w * h0 > h * w0,
    ensures
        h0 * w / w0 >= h,
{
    vstd::arithmetic::div_mod::lemma_div_multiples_vanish(h, w0);
    assert(w0 * h == h * w0 && h0 * w == w * h0) by (nonlinear_arith);
    vstd::arithmetic::div_mod::lemma_div_is_ordered(w0 * h, h0 * w, w0);
}

/// When the request is not wider than the source, the intermediate width
/// w0 * h / h0 covers the requested width.
pub proof fn lemma_tall_intermediate(w0: int, h0: int, w: int, h: int)
    requires
        w0 >= 1,
        h0 >= 1,
        w >= 1,
        h >= 1,
        w * h0 <= h * w0,
    ensures
        w0 * h / h0 >= w,
{
    vstd::arithmetic::div_mod::lemma_div_multiples_vanish(w, h0);
    assert(h0 * w == w * h0 && w0 * h == h * w0) by (nonlinear_arith);
    vstd::arithmetic::div_mod::lemma_div_is_ordered(h0 * w, w0 * h, h0);
}

/// Computes the resize plan, or None when the plan is not valid: a requested
/// or computed dimension of 0, or a raster too large to hold.
pub fn compute_plan(w0: u32, h0: u32, ow: Option<u32>, oh: Option<u32>) -> (r: Option<ResizePlan>)
    requires
        w0 >= 1,
        h0 >= 1,
    ensures
        plan_valid(w0 as int, h0 as int, ow, oh) ==> r == Some(
            plan_of(w0 as int, h0 as int, ow, oh),
        ),
        !plan_valid(w0 as int, h0 as int, ow, oh) ==> r is None,
{
    let cap: u128 = usize::MAX as u128;
    match (ow, oh) {
        (None, None) => {
            if !bmp_fits_check(w0, h0) {
                return None;
            }
            Some(ResizePlan::Keep)
        },
        (Some(w), None) => {
            proof {
                lemma_mul_fits_u64(h0 as int, w as int);
            }
            if w == 0 {
                return None;
            }
            let hh: u64 = (h0 as u64) * (w as u64) / (w0 as u64);
            if hh == 0 || hh > u32::MAX as u64 {
                return None;
            }
            if !bmp_fits_check(w, hh as u32) {
                return None;
            }
            Some(ResizePlan::Exact { w, h: hh as u32 })
        },
        (None, Some(h)) => {
            proof {
                lemma_mul_fits_u64(w0 as int, h as int);
            }
            if h == 0 {
                return None;
            }
            let ww: u64 = (w0 as u64) * (h as u64) / (h0 as u64);
            if ww == 0 || ww > u32::MAX as u64 {
                return None;
            }
            if !bmp_fits_check(ww as u32, h) {
                return None;
            }
            Some(ResizePlan::Exact { w: ww as u32, h })
        },
        (Some(w), Some(h)) => {
            if w == 0 || h == 0 {
                return None;
            }
            proof {
                lemma_mul_fits_u64(w as int, h0 as int);
                lemma_mul_fits_u64(h as int, w0 as int);
                lemma_mul_fits_u64(h0 as int, w as int);
                lemma_mul_fits_u64(w0 as int, h as int);
            }
            if (w as u64) * (h0 as u64) > (h as u64) * (w0 as u64) {
                let ih: u64 = (h0 as u64) * (w as u64) / (w0 as u64);
                if ih > u32::MAX as u64 {
                    return None;
                }
                proof {
                    assert(3 * (w as int) * (ih as int) == 3 * ((w as int) * (ih as int)))
                        by (nonlinear_arith);
                    lemma_mul_fits_u64(w as int, ih as int);
                    lemma_wide_intermediate(w0 as int, h0 as int, w as int, h as int);
                }
                if 3u128 * ((w as u128) * (ih as u128)) > cap {
                    return None;
                }
                if !bmp_fits_check(w, h) {
                    return None;
                }
                Some(ResizePlan::CropWide { w, h, ih: ih as u32, y0: ((ih as u32) - h) / 2 })
            } else {
                let iw: u64 = (w0 as u64) * (h as u64) / (h0 as u64);
                if iw > u32::MAX as u64 {
                    return None;
                }
                proof {
                    assert(3 * (iw as int) * (h as int) == 3 * ((iw as int) * (h as int)))
                        by (nonlinear_arith);
                    lemma_mul_fits_u64(iw as int, h as int);
                    lemma_tall_intermediate(w0 as int, h0 as int, w as int, h as int);
                }
                if 3u128 * ((iw as u128) * (h as u128)) > cap {
                    return None;
                }
                if !bmp_fits_check(w, h) {
                    return None;
                }
                Some(ResizePlan::CropTall { w, h, iw: iw as u32, x0: ((iw as u32) - w) / 2 })
            }
        },
    }
}

/// What image::load_from_memory followed by DynamicImage::into_rgb8 yields
/// for a byte sequence: its RGB8 raster, or None when the bytes do not
/// decode. Decoding is a function of the bytes alone.
pub uninterp spec fn decode_rgb_of(bytes: Seq<u8>) -> Option<(u32, u32, Seq<u8>)>;

/// What DynamicImage::write_to yields for an RGB8 raster under the BMP output
/// format. Encoding is a function of the raster alone.
pub uninterp spec fn bmp_encoding_of(width: u32, height: u32, pixels: Seq<u8>) -> Seq<u8>;

/// Relies on image::load_from_memory and DynamicImage::into_rgb8: the decoder
/// is deterministic in the input bytes, and the RGB8 buffer it hands back
/// holds exactly three bytes per pixel of its width x height grid.
#[verifier::external_body]
fn decode_rgb(bytes: &Vec<u8>) -> (r: Result<RasterImage, TransformError>)
    ensures
        r matches Ok(img) ==> img.wf() && decode_rgb_of(bytes@) == Some(
            (img.width, img.height, img.pixels@),
        ),
        r matches Err(e) ==> e == TransformError::DecodeFailure && decode_rgb_of(bytes@) is None,
{
    match image::load_from_memory(bytes.as_slice()) {
        Ok(decoded) => {
            let rgb = decoded.into_rgb8();
            let width = rgb.width();
            let height = rgb.height();
            Ok(RasterImage { width, height, pixels: rgb.into_raw() })
        },
        Err(_) => Err(TransformError::DecodeFailure),
    }
}

/// Relies on RgbImage::from_raw and DynamicImage::write_to with the BMP
/// output format: the encoder is deterministic in the raster it is given,
/// and on a well-formed RGB raster within the BMP container bound its size
/// arithmetic fits 32 bits, every size check passes, and writing to a byte
/// cursor cannot fail, so the call returns Ok.
#[verifier::external_body]
fn encode_bmp(img: &RasterImage) -> (r: Result<Vec<u8>, TransformError>)
    requires
        img.wf(),
        bmp_fits(img.width as int, img.height as int),
    ensures
        r is Ok,
        r matches Ok(b) ==> b@ == bmp_encoding_of(img.width, img.height, img.pixels@),
{
    let buffer = match image::RgbImage::from_raw(img.width, img.height, img.pixels.clone()) {
        Some(b) => b,
        None => return Err(TransformError::EncodeFailure),
    };
    let mut bytes: Vec<u8> = Vec::new();
    let mut writer = std::io::Cursor::new(&mut bytes);
    match image::DynamicImage::ImageRgb8(buffer).write_to(
        &mut writer,
        image::ImageOutputFormat::Bmp,
    ) {
        Ok(()) => Ok(bytes),
        Err(_) => Err(TransformError::EncodeFailure),
    }
}

/// A fresh byte vector with the same contents.
fn copy_bytes(v: &Vec<u8>) -> (r: Vec<u8>)
    ensures
        r@ == v@,
{
    let mut out: Vec<u8> = Vec::new();
    let mut i: usize = 0;
    while i < v.len()
        invariant
            i <= v@.len(),
            out@ == v@.subrange(0, i as int),
        decreases v@.len() - i,
    {
        out.push(v[i]);
        i = i + 1;
    }
    proof {
        assert(out@ == v@.subrange(0, v@.len() as int));
        assert(v@.subrange(0, v@.len() as int) == v@);
    }
    out
}

/// The raster a valid plan turns the decoded w0 x h0 raster into: kept,
/// resized, or resized and then cropped symmetrically.
pub open spec fn resize_stage_rel(
    w0: int,
    h0: int,
    p0: Seq<u8>,
    ow: Option<u32>,
    oh: Option<u32>,
    w1: int,
    h1: int,
    p1: Seq<u8>,
) -> bool {
    match plan_of(w0, h0, ow, oh) {
        ResizePlan::Keep => w1 == w0 && h1 == h0 && p1 == p0,
        ResizePlan::Exact { w, h } => w1 == w && h1 == h && resize_rel(
            p0,
            w0,
            h0,
            p1,
            w as int,
            h as int,
        ),
        ResizePlan::CropTall { w, h, iw, x0 } => w1 == w && h1 == h && exists|pi: Seq<u8>|
            #[trigger] resize_rel(p0, w0, h0, pi, iw as int, h as int) && crop_rel(
                pi,
                iw as int,
                h as int,
                p1,
                x0 as int,
                0,
                w as int,
                h as int,
            ),
        ResizePlan::CropWide { w, h, ih, y0 } => w1 == w && h1 == h && exists|pi: Seq<u8>|
            #[trigger] resize_rel(p0, w0, h0, pi, w as int, ih as int) && crop_rel(
                pi,
                w as int,
                ih as int,
                p1,
                0,
                y0 as int,
                w as int,
                h as int,
            ),
    }
}

/// The raster the dither stage turns the w x h raster into: unchanged when no
/// mode is given, else one of equal size whose every pixel is an entry of the
/// mode's output color set.
pub open spec fn dither_stage_rel(
    mode: Option<DitherType>,
    w: int,
    h: int,
    p1: Seq<u8>,
    p2: Seq<u8>,
) -> bool {
    match mode {
        Option::None => p2 == p1,
        Option::Some(m) => p2 == dither_upto_spec(
            match_palette_spec(m),
            display_palette_spec(m),
            w,
            h,
            p1,
            (w * h) as nat,
        ) && p2.len() == p1.len() && all_pixels_in(p2, w, h, display_palette_spec(m)),
    }
}

/// What the pipeline returns for given source bytes and options: the bytes
/// unchanged when nothing is requested; otherwise the decoded raster pushed
/// through the resize and dither stages and re-encoded as BMP -- owed to
/// succeed once the bytes decode to a non-empty raster and the plan is valid
/// -- with each failure mapped to its error kind.
pub open spec fn pipeline_post(
    bytes: Seq<u8>,
    o: ImageTransformOptions,
    r: Result<Vec<u8>, TransformError>,
) -> bool {
    if options_empty(o) {
        r matches Ok(b) && b@ == bytes
    } else {
        match decode_rgb_of(bytes) {
            Option::None => r matches Err(e) && e == TransformError::DecodeFailure,
            Option::Some(d) => {
                if d.0 == 0 || d.1 == 0 {
                    r matches Err(e) && e == TransformError::DecodeFailure
                } else if !plan_valid(d.0 as int, d.1 as int, o.width, o.height) {
                    r matches Err(e) && e == TransformError::InvalidDimensions
                } else {
                    r matches Ok(b) && exists|w1: u32, h1: u32, p1: Seq<u8>, p2: Seq<u8>|
                        #![trigger bmp_encoding_of(w1, h1, p2), dither_stage_rel(
                            o.dither,
                            w1 as int,
                            h1 as int,
                            p1,
                            p2,
                        )]
                        resize_stage_rel(
                            d.0 as int,
                            d.1 as int,
                            d.2,
                            o.width,
                            o.height,
                            w1 as int,
                            h1 as int,
                            p1,
                        ) && dither_stage_rel(o.dither, w1 as int, h1 as int, p1, p2) && b@
                            == bmp_encoding_of(w1, h1, p2)
                }
            },
        }
    }
}

/// The whole transform pipeline: passthrough when no transform is requested,
/// else decode, resize or crop to the requested dimensions, dither to the
/// requested palette, and re-encode as BMP.
pub fn transform_image(bytes: &Vec<u8>, options: &ImageTransformOptions) -> (r: Result<
    Vec<u8>,
    TransformError,
>)
    ensures
        pipeline_post(bytes@, *options, r),
{
    if options.width.is_none() && options.height.is_none() && options.dither.is_none() {
        return Ok(copy_bytes(bytes));
    }
    let img0 = match decode_rgb(bytes) {
        Ok(i) => i,
        Err(e) => {
            return Err(e);
        },
    };
    if img0.width == 0 || img0.height == 0 {
        return Err(TransformError::DecodeFailure);
    }
    let ghost w0 = img0.width as int;
    let ghost h0 = img0.height as int;
    let ghost p0 = img0.pixels@;
    let plan = match compute_plan(img0.width, img0.height, options.width, options.height) {
        Some(p) => p,
        None => {
            return Err(TransformError::InvalidDimensions);
        },
    };
    let mut img: RasterImage = match plan {
        ResizePlan::Keep => img0,
        ResizePlan::Exact { w, h } => {
            proof {
                lemma_bmp_fits_bound(w as int, h as int);
            }
            resize(&img0, w, h)
        },
        ResizePlan::CropTall { w, h, iw, x0 } => {
            proof {
                lemma_tall_intermediate(w0, h0, w as int, h as int);
                assert((iw - w) / 2 + w <= iw) by (nonlinear_arith)
                    requires
                        iw >= w >= 0,
                ;
            }
            let t = resize(&img0, iw, h);
            let c = crop(&t, x0, 0, w, h);
            proof {
                assert(resize_rel(p0, w0, h0, t.pixels@, iw as int, h as int));
                assert(crop_rel(
                    t.pixels@,
                    iw as int,
                    h as int,
                    c.pixels@,
                    x0 as int,
                    0,
                    w as int,
                    h as int,
                ));
            }
            c
        },
        ResizePlan::CropWide { w, h, ih, y0 } => {
            proof {
                lemma_wide_intermediate(w0, h0, w as int, h as int);
                assert((ih - h) / 2 + h <= ih) by (nonlinear_arith)
                    requires
                        ih >= h >= 0,
                ;
            }
            let t = resize(&img0, w, ih);
            let c = crop(&t, 0, y0, w, h);
            proof {
                assert(resize_rel(p0, w0, h0, t.pixels@, w as int, ih as int));
                assert(crop_rel(
                    t.pixels@,
                    w as int,
                    ih as int,
                    c.pixels@,
                    0,
                    y0 as int,
                    w as int,
                    h as int,
                ));
            }
            c
        },
    };
    let ghost w1 = img.width;
    let ghost h1 = img.height;
    let ghost p1 = img.pixels@;
    proof {
        assert(resize_stage_rel(w0, h0, p0, options.width, options.height, w1 as int, h1 as int, p1));
    }
    if let Some(mode) = options.dither {
        let pal = palette_for(mode);
        dither(&mut img, &pal);
    }
    let ghost p2 = img.pixels@;
    proof {
        assert(dither_stage_rel(options.dither, w1 as int, h1 as int, p1, p2));
    }
    proof {
        assert(bmp_fits(w1 as int, h1 as int));
    }
    let result = encode_bmp(&img);
    proof {
        match &result {
            Ok(b) => {
                assert(resize_stage_rel(
                    w0,
                    h0,
                    p0,
                    options.width,
                    options.height,
                    w1 as int,
                    h1 as int,
                    p1,
                ) && dither_stage_rel(options.dither, w1 as int, h1 as int, p1, p2) && b@
                    == bmp_encoding_of(w1, h1, p2));
            },
            Err(_) => {
                assert(false);
            },
        }
    }
    result
}

/// Exact-dimension guarantee: whenever both dimensions are requested and the
/// resize stage relates the source raster to an output raster, that output
/// has exactly the requested width and height.
pub proof fn lemma_exact_dimensions(
    w0: int,
    h0: int,
    p0: Seq<u8>,
    o: ImageTransformOptions,
    w1: int,
    h1: int,
    p1: Seq<u8>,
)
    requires
        w0 >= 1,
        h0 >= 1,
        o.width is Some,
        o.height is Some,
        resize_stage_rel(w0, h0, p0, o.width, o.height, w1, h1, p1),
    ensures
        w1 == o.width.unwrap(),
        h1 == o.height.unwrap(),
{
}

/// Exact-dimension guarantee at the pipeline: for options with both
/// dimensions requested, source bytes that decode to a non-empty raster, and
/// a valid plan, the pipeline succeeds, and what it returns is the encoding
/// of a raster of exactly the requested width and height.
pub proof fn lemma_pipeline_exact_dimensions(
    bytes: Seq<u8>,
    o: ImageTransformOptions,
    r: Result<Vec<u8>, TransformError>,
)
    requires
        pipeline_post(bytes, o, r),
        o.width is Some,
        o.height is Some,
        decode_rgb_of(bytes) matches Some(d) && d.0 >= 1 && d.1 >= 1 && plan_valid(
            d.0 as int,
            d.1 as int,
            o.width,
            o.height,
        ),
    ensures
        r matches Ok(b) && exists|p2: Seq<u8>|
            b@ == #[trigger] bmp_encoding_of(o.width.unwrap(), o.height.unwrap(), p2),
{
    let d = decode_rgb_of(bytes).unwrap();
    if let Ok(b) = r {
        let (w1, h1, p1, p2) = choose|w1: u32, h1: u32, p1: Seq<u8>, p2: Seq<u8>|
            #![trigger bmp_encoding_of(w1, h1, p2), dither_stage_rel(
                o.dither,
                w1 as int,
                h1 as int,
                p1,
                p2,
            )]
            resize_stage_rel(
                d.0 as int,
                d.1 as int,
                d.2,
                o.width,
                o.height,
                w1 as int,
                h1 as int,
                p1,
            ) && dither_stage_rel(o.dither, w1 as int, h1 as int, p1, p2) && b@
                == bmp_encoding_of(w1, h1, p2);
        lemma_exact_dimensions(d.0 as int, d.1 as int, d.2, o, w1 as int, h1 as int, p1);
        assert(b@ == bmp_encoding_of(o.width.unwrap(), o.height.unwrap(), p2));
    }
}

} // verus!
