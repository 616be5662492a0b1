use image_server::pipeline::{compute_plan, ResizePlan};
use image_server::raster::RasterImage;
use image_server::resize::{crop, resize};

#[test]
fn width_only_preserves_aspect_ratio() {
    // A 200 x 50 source requested at width 100 scales to 100 x 25.
    let plan = compute_plan(200, 50, Some(100), None);
    assert_eq!(plan, Some(ResizePlan::Exact { w: 100, h: 25 }));
}

#[test]
fn height_only_preserves_aspect_ratio() {
    let plan = compute_plan(200, 50, None, Some(25));
    assert_eq!(plan, Some(ResizePlan::Exact { w: 100, h: 25 }));
}

#[test]
fn wider_request_crops_rows_symmetrically() {
    // A 100 x 100 source requested as 100 x 50 resizes to 100 x 100, then
    // crops 25 rows from the top and 25 from the bottom.
    let plan = compute_plan(100, 100, Some(100), Some(50));
    assert_eq!(plan, Some(ResizePlan::CropWide { w: 100, h: 50, ih: 100, y0: 25 }));
}

#[test]
fn taller_request_crops_columns_symmetrically() {
    let plan = compute_plan(100, 100, Some(50), Some(100));
    assert_eq!(plan, Some(ResizePlan::CropTall { w: 50, h: 100, iw: 100, x0: 25 }));
}

#[test]
fn equal_ratio_takes_the_tall_branch_without_excess() {
    let plan = compute_plan(100, 50, Some(50), Some(25));
    assert_eq!(plan, Some(ResizePlan::CropTall { w: 50, h: 25, iw: 50, x0: 0 }));
}

#[test]
fn no_dimensions_keeps_the_raster() {
    assert_eq!(compute_plan(640, 480, None, None), Some(ResizePlan::Keep));
}

#[test]
fn zero_dimension_is_rejected() {
    assert_eq!(compute_plan(100, 100, Some(0), None), None);
    assert_eq!(compute_plan(100, 100, Some(10), Some(0)), None);
    // A computed counterpart that truncates to zero is rejected too.
    assert_eq!(compute_plan(200, 50, Some(1), None), None);
}

#[test]
fn resize_replicates_nearest_pixel() {
    let src = RasterImage { width: 1, height: 1, pixels: vec![255, 0, 0] };
    let out = resize(&src, 2, 2);
    assert_eq!(out.width, 2);
    assert_eq!(out.height, 2);
    assert_eq!(out.pixels, vec![255, 0, 0, 255, 0, 0, 255, 0, 0, 255, 0, 0]);
}

#[test]
fn resize_downscales_by_sampling() {
    // 2 x 1 source; at width 1 the left pixel is sampled.
    let src = RasterImage { width: 2, height: 1, pixels: vec![1, 2, 3, 4, 5, 6] };
    let out = resize(&src, 1, 1);
    assert_eq!(out.pixels, vec![1, 2, 3]);
}

#[test]
fn crop_takes_the_requested_rectangle() {
    let src = RasterImage {
        width: 2,
        height: 2,
        pixels: vec![1, 1, 1, 2, 2, 2, 3, 3, 3, 4, 4, 4],
    };
    let out = crop(&src, 1, 0, 1, 2);
    assert_eq!(out.width, 1);
    assert_eq!(out.height, 2);
    assert_eq!(out.pixels, vec![2, 2, 2, 4, 4, 4]);
}
