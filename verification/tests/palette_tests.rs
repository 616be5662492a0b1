use image_server::palette::{abs_diff, palette_for, DitherType, Palette};

#[test]
fn abs_diff_both_orders() {
    assert_eq!(abs_diff(10, 250), 240);
    assert_eq!(abs_diff(250, 10), 240);
    assert_eq!(abs_diff(7, 7), 0);
}

#[test]
fn single_entry_palette_always_matches_index_zero() {
    let p = Palette::new(vec![[10, 20, 30]], None);
    assert_eq!(p.index_of(&[0, 0, 0]), 0);
    assert_eq!(p.index_of(&[255, 255, 255]), 0);
}

#[test]
fn equidistant_tie_selects_lower_index() {
    // The input is equidistant (L1 distance 30) from entries 0 and 2 of a
    // three-entry palette; the quantizer must pick entry 0.
    let p = Palette::new(vec![[0, 0, 0], [100, 100, 100], [20, 20, 20]], None);
    assert_eq!(p.index_of(&[10, 10, 10]), 0);
}

#[test]
fn lookup_uses_display_colors_when_present() {
    let p = Palette::new(
        vec![[50, 50, 80], [225, 225, 225]],
        Some(vec![[0, 0, 0], [255, 255, 255]]),
    );
    assert_eq!(p.lookup(0), Some([0, 0, 0]));
    assert_eq!(p.lookup(1), Some([255, 255, 255]));
    assert_eq!(p.lookup(2), None);
}

#[test]
fn lookup_falls_back_to_match_colors() {
    let p = Palette::new(vec![[1, 2, 3], [4, 5, 6]], None);
    assert_eq!(p.lookup(1), Some([4, 5, 6]));
    assert_eq!(p.lookup(5), None);
    assert!(p.has_lookup());
}

#[test]
fn map_color_substitutes_display_color() {
    let p = Palette::new(
        vec![[50, 50, 80], [225, 225, 225]],
        Some(vec![[0, 0, 0], [255, 255, 255]]),
    );
    let mut c: [u8; 3] = [60, 55, 70];
    p.map_color(&mut c);
    assert_eq!(c, [0, 0, 0]);
    let mut d: [u8; 3] = [200, 210, 220];
    p.map_color(&mut d);
    assert_eq!(d, [255, 255, 255]);
}

#[test]
fn mode_palettes_have_expected_entries() {
    let ep = palette_for(DitherType::EPaperSeven);
    assert_eq!(ep.len(), 8);
    assert_eq!(ep.match_color_at(2), [67, 138, 28]);
    assert_eq!(ep.lookup(2), Some([67, 138, 28]));

    let ws = palette_for(DitherType::WaveShare);
    assert_eq!(ws.len(), 7);
    // Matching runs against the measured colors, output uses the nominal set.
    assert_eq!(ws.match_color_at(0), [50, 50, 80]);
    assert_eq!(ws.lookup(0), Some([0, 0, 0]));
    assert_eq!(ws.match_color_at(6), [225, 225, 195]);
    assert_eq!(ws.lookup(6), Some([200, 180, 160]));

    let tb = palette_for(DitherType::ThreeBit);
    assert_eq!(tb.len(), 8);
    assert_eq!(tb.lookup(1), Some([255, 0, 0]));
    assert_eq!(tb.lookup(7), Some([255, 255, 255]));
}
