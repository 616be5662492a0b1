use image_server::dither::dither;
use image_server::palette::{palette_for, DitherType, Palette};
use image_server::raster::RasterImage;

fn pixel(img: &RasterImage, x: u32, y: u32) -> [u8; 3] {
    let base = (3 * (y * img.width + x)) as usize;
    [img.pixels[base], img.pixels[base + 1], img.pixels[base + 2]]
}

#[test]
fn dither_output_is_closed_over_strict_palette() {
    let strict: [[u8; 3]; 8] = [
        [0, 0, 0],
        [255, 0, 0],
        [0, 255, 0],
        [0, 0, 255],
        [255, 255, 0],
        [0, 255, 255],
        [255, 0, 255],
        [255, 255, 255],
    ];
    let mut img = RasterImage {
        width: 3,
        height: 2,
        pixels: vec![17, 200, 90, 13, 14, 15, 250, 250, 3, 90, 90, 90, 0, 128, 255, 33, 66, 99],
    };
    let pal = palette_for(DitherType::ThreeBit);
    dither(&mut img, &pal);
    assert_eq!(img.width, 3);
    assert_eq!(img.height, 2);
    for y in 0..2 {
        for x in 0..3 {
            let c = pixel(&img, x, y);
            assert!(strict.contains(&c), "pixel {:?} not in palette", c);
        }
    }
}

#[test]
fn dither_output_is_closed_over_display_palette() {
    let nominal: [[u8; 3]; 7] = [
        [0, 0, 0],
        [255, 255, 255],
        [0, 255, 0],
        [0, 0, 255],
        [255, 0, 0],
        [255, 255, 0],
        [200, 180, 160],
    ];
    let mut img = RasterImage {
        width: 2,
        height: 2,
        pixels: vec![60, 55, 70, 210, 220, 230, 100, 120, 80, 180, 60, 50],
    };
    let pal = palette_for(DitherType::WaveShare);
    dither(&mut img, &pal);
    for y in 0..2 {
        for x in 0..2 {
            let c = pixel(&img, x, y);
            assert!(nominal.contains(&c), "pixel {:?} not in display palette", c);
        }
    }
}

#[test]
fn dither_maps_measured_color_to_nominal_output() {
    // A single pixel near the measured "black" of the panel must come out as
    // the nominal black, not as the measured color.
    let mut img = RasterImage { width: 1, height: 1, pixels: vec![55, 52, 75] };
    let pal = palette_for(DitherType::WaveShare);
    dither(&mut img, &pal);
    assert_eq!(img.pixels, vec![0, 0, 0]);
}

#[test]
fn dither_keeps_exact_palette_colors() {
    // Solid white is itself a palette entry: no error to diffuse anywhere.
    let mut img = RasterImage {
        width: 2,
        height: 1,
        pixels: vec![255, 255, 255, 255, 255, 255],
    };
    let pal = palette_for(DitherType::EPaperSeven);
    dither(&mut img, &pal);
    assert_eq!(img.pixels, vec![255, 255, 255, 255, 255, 255]);
}

#[test]
fn dither_diffuses_error_to_the_right_neighbor() {
    // Two mid-gray pixels against a black-and-white palette: 128 sits 127
    // below white and 128 above black, so the first pixel snaps to white,
    // and 7/16 of the negative error pulls the right neighbor down to
    // 128 - 127 * 7 / 16 = 73, which then snaps to black.
    let pal = Palette::new(vec![[0, 0, 0], [255, 255, 255]], None);
    let mut img = RasterImage { width: 2, height: 1, pixels: vec![128, 128, 128, 128, 128, 128] };
    dither(&mut img, &pal);
    assert_eq!(&img.pixels[0..3], &[255, 255, 255]);
    assert_eq!(&img.pixels[3..6], &[0, 0, 0]);
}
