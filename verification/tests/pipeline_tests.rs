use image_server::palette::DitherType;
use image_server::pipeline::{transform_image, ImageTransformOptions, TransformError};

fn empty_options() -> ImageTransformOptions {
    ImageTransformOptions { width: None, height: None, dither: None }
}

fn bmp_from(img: image::RgbImage) -> Vec<u8> {
    let mut bytes: Vec<u8> = Vec::new();
    let mut cursor = std::io::Cursor::new(&mut bytes);
    image::DynamicImage::ImageRgb8(img)
        .write_to(&mut cursor, image::ImageOutputFormat::Bmp)
        .unwrap();
    bytes
}

fn solid_bmp(w: u32, h: u32, rgb: [u8; 3]) -> Vec<u8> {
    bmp_from(image::RgbImage::from_pixel(w, h, image::Rgb(rgb)))
}

fn decode(bytes: &[u8]) -> image::RgbImage {
    image::load_from_memory(bytes).unwrap().into_rgb8()
}

#[test]
fn passthrough_returns_source_bytes_unchanged() {
    let source = solid_bmp(5, 4, [12, 34, 56]);
    let result = transform_image(&source, &empty_options()).unwrap();
    assert_eq!(result, source);
}

#[test]
fn passthrough_does_not_touch_non_image_bytes() {
    let source: Vec<u8> = b"not an image at all".to_vec();
    let result = transform_image(&source, &empty_options()).unwrap();
    assert_eq!(result, source);
}

#[test]
fn both_dimensions_give_exactly_that_raster() {
    let source = solid_bmp(10, 10, [200, 100, 50]);
    let options = ImageTransformOptions { width: Some(4), height: Some(2), dither: None };
    let out = transform_image(&source, &options).unwrap();
    let raster = decode(&out);
    assert_eq!(raster.width(), 4);
    assert_eq!(raster.height(), 2);
}

#[test]
fn width_only_scales_height_proportionally() {
    let source = solid_bmp(200, 50, [5, 6, 7]);
    let options = ImageTransformOptions { width: Some(100), height: None, dither: None };
    let out = transform_image(&source, &options).unwrap();
    let raster = decode(&out);
    assert_eq!(raster.width(), 100);
    assert_eq!(raster.height(), 25);
}

#[test]
fn wider_request_keeps_requested_dimensions_and_center() {
    // 100 x 100 source whose middle half is green: requesting 100 x 50 keeps
    // the vertical center, so the output is all green.
    let img = image::RgbImage::from_fn(100, 100, |_, y| {
        if (25..75).contains(&y) {
            image::Rgb([0, 255, 0])
        } else {
            image::Rgb([255, 0, 0])
        }
    });
    let source = bmp_from(img);
    let options = ImageTransformOptions { width: Some(100), height: Some(50), dither: None };
    let out = transform_image(&source, &options).unwrap();
    let raster = decode(&out);
    assert_eq!(raster.width(), 100);
    assert_eq!(raster.height(), 50);
    for p in raster.pixels() {
        assert_eq!(p.0, [0, 255, 0]);
    }
}

#[test]
fn undecodable_bytes_report_decode_failure() {
    let source: Vec<u8> = b"definitely not a raster".to_vec();
    let options = ImageTransformOptions { width: Some(10), height: None, dither: None };
    assert_eq!(transform_image(&source, &options), Err(TransformError::DecodeFailure));
}

#[test]
fn zero_dimension_reports_invalid_dimensions() {
    let source = solid_bmp(8, 8, [1, 2, 3]);
    let options = ImageTransformOptions { width: Some(0), height: None, dither: None };
    assert_eq!(transform_image(&source, &options), Err(TransformError::InvalidDimensions));
    let options = ImageTransformOptions { width: Some(4), height: Some(0), dither: None };
    assert_eq!(transform_image(&source, &options), Err(TransformError::InvalidDimensions));
}

#[test]
fn dither_only_request_still_reencodes() {
    let source = solid_bmp(2, 2, [10, 10, 10]);
    let options = ImageTransformOptions { width: None, height: None, dither: Some(DitherType::ThreeBit) };
    let out = transform_image(&source, &options).unwrap();
    assert_ne!(out, source);
    let raster = decode(&out);
    assert_eq!(raster.width(), 2);
    assert_eq!(raster.height(), 2);
    for p in raster.pixels() {
        assert_eq!(p.0, [0, 0, 0]);
    }
}

#[test]
fn dithered_pipeline_output_is_palette_exact() {
    let epaper: [[u8; 3]; 8] = [
        [0, 0, 0],
        [255, 255, 255],
        [67, 138, 28],
        [100, 64, 255],
        [191, 0, 0],
        [255, 243, 56],
        [232, 126, 0],
        [194, 164, 244],
    ];
    let img = image::RgbImage::from_fn(9, 7, |x, y| {
        image::Rgb([(x * 28) as u8, (y * 36) as u8, ((x + y) * 15) as u8])
    });
    let source = bmp_from(img);
    let options = ImageTransformOptions {
        width: Some(6),
        height: Some(5),
        dither: Some(DitherType::EPaperSeven),
    };
    let out = transform_image(&source, &options).unwrap();
    let raster = decode(&out);
    assert_eq!(raster.width(), 6);
    assert_eq!(raster.height(), 5);
    for p in raster.pixels() {
        assert!(epaper.contains(&p.0), "pixel {:?} not in palette", p.0);
    }
}
