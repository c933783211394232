use ascii_art::config::{Charset, ColorMode, RenderConfig, Resolution};
use ascii_art::frame::{GrayFrame, RgbFrame};
use ascii_art::image_processing::{
    brightness_to_char, brightness_to_glyph, normalize_pixels, process_gray_frame,
    process_image_grayscale, process_image_rgb, process_rgb_frame, render_rgb_cells,
    rgb_to_brightness,
};

#[test]
fn charsets_are_ordered_and_at_least_two_glyphs() {
    assert_eq!(
        Charset::Simple.get_charset(),
        vec![' ', '.', '~', ':', '*', '#', '@']
    );
    assert_eq!(
        Charset::Detailed.get_charset(),
        vec![' ', '.', '^', '~', ':', '*', '=', '+', '!', '?', '#', '@']
    );
    assert_eq!(
        Charset::Blocks.get_charset(),
        vec![' ', '\u{2591}', '\u{2592}', '\u{2593}', '\u{2588}']
    );
    assert_eq!(
        Charset::Braille.get_charset(),
        vec![' ', '\u{2810}', '\u{2812}', '\u{283F}', '\u{28FF}']
    );
    for c in [
        Charset::Simple,
        Charset::Detailed,
        Charset::Blocks,
        Charset::Braille,
    ] {
        assert!(c.get_charset().len() >= 2);
    }
}

#[test]
fn luma_weights_exact_values() {
    assert_eq!(rgb_to_brightness(255, 0, 0), 76);
    assert_eq!(rgb_to_brightness(0, 255, 0), 149);
    assert_eq!(rgb_to_brightness(0, 0, 255), 29);
    assert_eq!(rgb_to_brightness(255, 255, 255), 255);
    assert_eq!(rgb_to_brightness(0, 0, 0), 0);
}

#[test]
fn glyph_index_monotone_and_in_range() {
    let ramp = Charset::Simple.get_charset();
    let mut prev = 0usize;
    for b in 0..=255u8 {
        let g = brightness_to_glyph(b, &ramp);
        let idx = ramp.iter().position(|&c| c == g).unwrap();
        assert!(idx >= prev, "index fell from {} to {} at {}", prev, idx, b);
        assert!(idx <= ramp.len() - 1);
        prev = idx;
    }
    assert_eq!(brightness_to_glyph(0, &ramp), ' ');
    assert_eq!(brightness_to_glyph(255, &ramp), '@');
    // 128 * 6 / 255 = 3
    assert_eq!(brightness_to_glyph(128, &ramp), ':');
    assert_eq!(brightness_to_char(0, &Charset::Detailed), ' ');
    assert_eq!(brightness_to_char(255, &Charset::Detailed), '@');
}

#[test]
fn contrast_stretch_identity_at_full_brightness() {
    // The maximum is already 255: stretching changes nothing.
    let v = vec![0u8, 128, 255];
    assert_eq!(normalize_pixels(&v), v);
}

#[test]
fn contrast_stretch_all_zero_unchanged() {
    // An all-zero frame is returned as is rather than divided by zero.
    let v = vec![0u8, 0, 0, 0];
    assert_eq!(normalize_pixels(&v), v);
}

#[test]
fn contrast_stretch_rescales_to_full_range() {
    let v = vec![0u8, 50, 100];
    assert_eq!(normalize_pixels(&v), vec![0, 127, 255]);
}

#[test]
fn black_two_by_two_renders_one_row_of_darkest_glyphs() {
    // A 2x2 all-black grayscale frame at resolution 1 renders to a single
    // 2-glyph row: the vertical halving makes the height 1.
    let img = GrayFrame::new(2, 2, vec![0u8, 0, 0, 0]);
    let ramp = vec![' ', '#'];
    let out = process_gray_frame(&img, Resolution::new(1, 1), &ramp);
    assert_eq!(out, "  \n");
}

#[test]
fn grayscale_render_uses_resized_pixels() {
    // Top row black, bottom row white: the resize to 2x1 blends the rows to
    // mid-gray, and the contrast stretch lifts both cells to full brightness.
    // Rendering the unresized buffer instead would give two dark cells.
    let img = GrayFrame::new(2, 2, vec![0u8, 0, 255, 255]);
    let ramp = vec![' ', '#'];
    let out = process_gray_frame(&img, Resolution::new(1, 1), &ramp);
    assert_eq!(out, "##\n");
}

#[test]
fn degenerate_scaled_dimensions_render_empty() {
    let img = GrayFrame::new(1, 1, vec![200u8]);
    let out = process_image_grayscale(&img, Resolution::new(1, 1), &Charset::Simple);
    assert_eq!(out, "");
    let empty = GrayFrame::new(0, 0, vec![]);
    let out2 = process_image_grayscale(&empty, Resolution::new(1, 2), &Charset::Simple);
    assert_eq!(out2, "");
}

#[test]
fn resolution_scales_rows_and_columns() {
    // 10x10 at 3/10 resolution: floor(10 * 3/10) = 3 columns,
    // floor(10 * 3/10 / 2) = 1 row.
    let img = GrayFrame::new(10, 10, vec![0u8; 100]);
    let out = process_gray_frame(&img, Resolution::new(3, 10), &vec![' ', '#']);
    assert_eq!(out, "   \n");
}

#[test]
fn rgb_cells_emit_escape_then_glyph() {
    // Two identical pixels: the single brightness is the frame maximum, so it
    // stretches to 255 and selects the brightest glyph; the escape carries the
    // raw channel values.
    let cells = vec![10u8, 20, 30, 10, 20, 30];
    let out = render_rgb_cells(&cells, 2, 1, &vec![' ', '#']);
    assert_eq!(out, "\u{1b}[38;2;10;20;30m#\u{1b}[38;2;10;20;30m#\n");
}

#[test]
fn rgb_render_uses_resized_pixels() {
    // Top row black, bottom row white: after the resize both cells are
    // mid-gray, the frame maximum, so both glyphs are the brightest one.
    // Rendering the unresized buffer instead would start with a black cell
    // and the darkest glyph.
    let img = RgbFrame::new(
        2,
        2,
        vec![0u8, 0, 0, 0, 0, 0, 255, 255, 255, 255, 255, 255],
    );
    let out = process_rgb_frame(&img, Resolution::new(1, 1), &vec![' ', '#']);
    assert!(out.starts_with("\u{1b}[38;2;"), "got {:?}", out);
    assert!(out.ends_with("m#\n"), "got {:?}", out);
    assert_eq!(out.chars().filter(|&c| c == '\n').count(), 1);
    assert_eq!(out.chars().filter(|&c| c == '#').count(), 2);
    assert_eq!(out.chars().filter(|&c| c == '\u{1b}').count(), 2);
}

#[test]
fn rgb_image_with_charset_renders() {
    let img = RgbFrame::new(2, 2, vec![100u8; 12]);
    let out = process_image_rgb(&img, Resolution::new(1, 1), &Charset::Simple);
    // One row of two cells, each its escape plus the brightest glyph.
    assert_eq!(out.chars().filter(|&c| c == '\n').count(), 1);
    assert_eq!(out.chars().filter(|&c| c == '@').count(), 2);
}

#[test]
fn rgb24_to_gray_frame_uses_luma() {
    let f = GrayFrame::from_rgb24(2, 1, &vec![255u8, 0, 0, 0, 255, 0]);
    assert_eq!(f.width, 2);
    assert_eq!(f.height, 1);
    assert_eq!(f.data, vec![76, 149]);
}

#[test]
fn render_config_carries_the_run_settings() {
    let c = RenderConfig::new(ColorMode::Grayscale, Charset::Blocks, Resolution::new(3, 10), 5);
    assert!(matches!(c.mode, ColorMode::Grayscale));
    assert!(matches!(c.charset, Charset::Blocks));
    assert_eq!(c.resolution.num, 3);
    assert_eq!(c.resolution.den, 10);
    assert_eq!(c.framerate, 5);
}

#[test]
fn rendered_shape_matches_scaled_dimensions() {
    // 7x9 at 1/2 resolution: floor(7/2) = 3 columns, floor(9/4) = 2 rows,
    // so the text is two rows of three glyphs, eight characters in all.
    let data: Vec<u8> = (0..63u8).map(|i| i.wrapping_mul(4)).collect();
    let img = GrayFrame::new(7, 9, data);
    let out = process_gray_frame(&img, Resolution::new(1, 2), &vec![' ', '.', '#']);
    assert_eq!(out.chars().count(), 8);
    assert_eq!(out.chars().filter(|&c| c == '\n').count(), 2);
    let rows: Vec<&str> = out.lines().collect();
    assert_eq!(rows.len(), 2);
    assert_eq!(rows[0].chars().count(), 3);
    assert_eq!(rows[1].chars().count(), 3);
}

#[test]
fn color_escape_writes_all_digit_widths() {
    // One pixel whose channels need three, one and two decimal digits.
    let out = render_rgb_cells(&vec![200u8, 7, 45], 1, 1, &vec![' ', '#']);
    assert_eq!(out, "\u{1b}[38;2;200;7;45m#\n");
}
