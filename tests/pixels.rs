use deragabu_agent::pixels::{
    add_white_outline, decompose_dual_render, expand_canvas, monochrome_mask_to_rgba, unmultiply_sample,
    unpremultiply_argb, unpremultiply_bgra,
};

fn pixel(buf: &[u8], w: usize, x: usize, y: usize) -> [u8; 4] {
    let i = (y * w + x) * 4;
    [buf[i], buf[i + 1], buf[i + 2], buf[i + 3]]
}

#[test]
fn dual_render_opaque_and_transparent() {
    // BGRA samples: an opaque red pixel and a fully transparent one.
    let black = vec![0, 0, 200, 0, 0, 0, 0, 0];
    let white = vec![0, 0, 200, 0, 255, 255, 255, 0];
    let (rgba, inv) = decompose_dual_render(&black, &white, 2);
    assert!(!inv);
    assert_eq!(rgba, vec![200, 0, 0, 255, 0, 0, 0, 0]);
}

#[test]
fn dual_render_half_alpha() {
    // Grey 128-alpha pixel of straight colour 200: premultiplied 100.
    let black = vec![100, 100, 100, 0];
    let white = vec![227, 227, 227, 0];
    let (rgba, inv) = decompose_dual_render(&black, &white, 1);
    assert!(!inv);
    assert_eq!(rgba[3], 128);
    // round(100 * 255 / 128) = round(199.22) = 199
    assert_eq!(&rgba[0..3], &[199, 199, 199]);
}

#[test]
fn dual_render_detects_inversion() {
    // Brighter over black than over white: an inversion pixel.
    let black = vec![255, 255, 255, 0, 0, 0, 0, 0];
    let white = vec![0, 0, 0, 0, 255, 255, 255, 0];
    let (rgba, inv) = decompose_dual_render(&black, &white, 2);
    assert!(inv);
    assert_eq!(&rgba[0..4], &[0, 0, 0, 255]);
    assert_eq!(&rgba[4..8], &[0, 0, 0, 0]);
}

#[test]
fn alpha_recovery_on_clean_samples() {
    for a in [1u8, 7, 64, 128, 200, 254, 255] {
        for k in 0..=a {
            let black = vec![k, k, k, 0];
            let white = vec![k + (255 - a), k + (255 - a), k + (255 - a), 0];
            let (rgba, inv) = decompose_dual_render(&black, &white, 1);
            assert!(!inv);
            assert_eq!(rgba[3], a);
            let exact = 255.0 * k as f64 / a as f64;
            assert!((rgba[0] as f64 - exact).abs() <= 1.0, "a={a} k={k}");
        }
    }
}

#[test]
fn unmultiply_rounds_and_caps() {
    assert_eq!(unmultiply_sample(0, 0), 0);
    assert_eq!(unmultiply_sample(64, 128), 128);
    assert_eq!(unmultiply_sample(200, 100), 255);
}

#[test]
fn monochrome_mask_cases() {
    // Five pixels: (AND, XOR) = (0,0) (0,1) (1,0) (1,1) and a mixed value.
    let and = [0u8, 0, 255, 255, 255];
    let xor = [0u8, 255, 0, 255, 77];
    let mut mask = Vec::new();
    for a in and {
        mask.extend_from_slice(&[a, a, a, 0]);
    }
    for x in xor {
        mask.extend_from_slice(&[x, x, x, 0]);
    }
    let (rgba, inv) = monochrome_mask_to_rgba(&mask, 5);
    assert!(inv);
    assert_eq!(pixel(&rgba, 5, 0, 0), [0, 0, 0, 255]);
    assert_eq!(pixel(&rgba, 5, 1, 0), [255, 255, 255, 255]);
    assert_eq!(pixel(&rgba, 5, 2, 0), [0, 0, 0, 0]);
    assert_eq!(pixel(&rgba, 5, 3, 0), [0, 0, 0, 255]);
    assert_eq!(pixel(&rgba, 5, 4, 0), [77, 77, 77, 255]);
}

#[test]
fn argb_unpremultiply() {
    let pixels = vec![0x8040_2010u32, 0xff10_2030, 0x0000_0000];
    let (rgba, transparent) = unpremultiply_argb(&pixels, 4);
    assert!(!transparent);
    assert_eq!(pixel(&rgba, 4, 0, 0), [128, 64, 32, 128]);
    assert_eq!(pixel(&rgba, 4, 1, 0), [0x10, 0x20, 0x30, 255]);
    assert_eq!(pixel(&rgba, 4, 2, 0), [0, 0, 0, 0]);
    // past the end of the pixel data
    assert_eq!(pixel(&rgba, 4, 3, 0), [0, 0, 0, 0]);
}

#[test]
fn argb_all_transparent() {
    let pixels = vec![0x00ff_ffffu32; 4];
    let (_, transparent) = unpremultiply_argb(&pixels, 4);
    assert!(transparent);
}

#[test]
fn canvas_expansion_centres_image() {
    let rgba = vec![1, 2, 3, 4, 5, 6, 7, 8];
    let (out, w, h) = expand_canvas(&rgba, 2, 1, 2);
    assert_eq!((w, h), (6, 5));
    assert_eq!(out.len(), 6 * 5 * 4);
    assert_eq!(pixel(&out, 6, 2, 2), [1, 2, 3, 4]);
    assert_eq!(pixel(&out, 6, 3, 2), [5, 6, 7, 8]);
    assert_eq!(pixel(&out, 6, 0, 0), [0, 0, 0, 0]);
    assert_eq!(pixel(&out, 6, 4, 2), [0, 0, 0, 0]);
}

#[test]
fn outline_fades_with_distance() {
    // One solid pixel in the middle of a 9 x 9 transparent image.
    let mut rgba = vec![0u8; 9 * 9 * 4];
    let c = (4 * 9 + 4) * 4;
    rgba[c + 3] = 255;
    add_white_outline(&mut rgba, 9, 9, 4);
    assert_eq!(pixel(&rgba, 9, 4, 4), [0, 0, 0, 255]);
    assert_eq!(pixel(&rgba, 9, 5, 4), [255, 255, 255, 255]);
    assert_eq!(pixel(&rgba, 9, 6, 4), [255, 255, 255, 170]);
    assert_eq!(pixel(&rgba, 9, 7, 4), [255, 255, 255, 85]);
    assert_eq!(pixel(&rgba, 9, 8, 4), [0, 0, 0, 0]);
    // diagonal neighbour: floor(255 * (4 - sqrt(2)) / 3) = 219
    assert_eq!(pixel(&rgba, 9, 5, 5), [255, 255, 255, 219]);
}

#[test]
fn outline_with_unit_and_large_radius() {
    let mut rgba = vec![0u8; 3 * 3 * 4];
    rgba[(4) * 4 + 3] = 255;
    add_white_outline(&mut rgba, 3, 3, 1);
    assert_eq!(pixel(&rgba, 3, 0, 1), [255, 255, 255, 255]);
    // diagonal pixels lie beyond a radius of one
    assert_eq!(pixel(&rgba, 3, 0, 0), [0, 0, 0, 0]);
    let mut big = vec![0u8; 3 * 1 * 4];
    big[3] = 255;
    add_white_outline(&mut big, 3, 1, 1000);
    // floor(255 * (1000 - 2) / 999) = 254
    assert_eq!(pixel(&big, 3, 1, 0), [255, 255, 255, 255]);
    assert_eq!(pixel(&big, 3, 2, 0), [255, 255, 255, 254]);
}

#[test]
fn outline_ignores_faint_pixels_and_keeps_content() {
    let mut rgba = vec![0u8; 3 * 1 * 4];
    rgba[3] = 200; // not solid enough to cast an outline
    rgba[8..12].copy_from_slice(&[9, 9, 9, 100]);
    let before = rgba.clone();
    add_white_outline(&mut rgba, 3, 1, 4);
    assert_eq!(rgba, before);
}

#[test]
fn bgra_rows_with_stride() {
    // Two pixels per row, rows of 12 bytes (4 bytes of padding), two rows;
    // the last pixel runs past the buffer.
    let mut data = vec![0u8; 12 + 4];
    data[0..4].copy_from_slice(&[0x10, 0x20, 0x40, 0x80]);
    data[4..8].copy_from_slice(&[1, 2, 3, 255]);
    data[12..16].copy_from_slice(&[0, 0, 0, 0]);
    let rgba = unpremultiply_bgra(&data, 12, 4, 2, 2);
    assert_eq!(&rgba[0..4], &[128, 64, 32, 128]);
    assert_eq!(&rgba[4..8], &[3, 2, 1, 255]);
    assert_eq!(&rgba[8..12], &[0, 0, 0, 0]);
    assert_eq!(&rgba[12..16], &[0, 0, 0, 0]);
    // fewer than four bytes per pixel: nothing is read
    assert_eq!(unpremultiply_bgra(&data, 12, 3, 2, 2), vec![0u8; 16]);
}
