//! Texture helpers: checkerboard generation, mip counts, 2x2 downsampling.

use render::{downsample_rgba_2x2, mip_chain, mip_level_count, procedural_checker_rgba};

#[test]
fn checker_alternates_light_and_dark() {
    let light = [200, 201, 202, 255];
    let dark = [10, 11, 12, 255];
    let (w, h, img) = procedural_checker_rgba(2, light, dark);
    assert_eq!((w, h), (2, 2));
    assert_eq!(img.len(), 16);
    assert_eq!(&img[0..4], &light);
    assert_eq!(&img[4..8], &dark);
    assert_eq!(&img[8..12], &dark);
    assert_eq!(&img[12..16], &light);
    let (w0, h0, empty) = procedural_checker_rgba(0, light, dark);
    assert_eq!((w0, h0), (0, 0));
    assert!(empty.is_empty());
}

#[test]
fn mip_levels() {
    assert_eq!(mip_level_count(0, 64), 0);
    assert_eq!(mip_level_count(1, 1), 1);
    assert_eq!(mip_level_count(256, 256), 9);
    assert_eq!(mip_level_count(256, 100), 7);
    assert_eq!(mip_level_count(u32::MAX, u32::MAX), 16);
}

#[test]
fn downsample_averages_blocks() {
    // 2x2 image: one output pixel, the mean of the four.
    let src = [
        0, 10, 20, 255, 4, 14, 24, 255, //
        8, 18, 28, 255, 12, 22, 32, 254,
    ];
    let (w, h, out) = downsample_rgba_2x2(2, 2, &src);
    assert_eq!((w, h), (1, 1));
    assert_eq!(out, vec![6, 16, 26, 254]);
}

#[test]
fn downsample_keeps_one_pixel_sides() {
    let src = [100, 50, 25, 255];
    let (w, h, out) = downsample_rgba_2x2(1, 1, &src);
    assert_eq!((w, h), (1, 1));
    assert_eq!(out, vec![100, 50, 25, 255]);
}

#[test]
fn mip_chain_halves_each_level() {
    let (_, _, base) = procedural_checker_rgba(4, [255, 255, 255, 255], [0, 0, 0, 255]);
    let levels = mip_chain(4, 4, &base, true);
    assert_eq!(levels.len(), 3);
    assert_eq!((levels[0].0, levels[0].1), (4, 4));
    assert_eq!(levels[0].2, base);
    assert_eq!((levels[1].0, levels[1].1), (2, 2));
    // each 2x2 block holds two light and two dark pixels
    assert_eq!(&levels[1].2[0..4], &[127, 127, 127, 255]);
    assert_eq!((levels[2].0, levels[2].1), (1, 1));
    assert_eq!(levels[2].2, vec![127, 127, 127, 255]);

    let single = mip_chain(4, 4, &base, false);
    assert_eq!(single.len(), 1);
    let thin = mip_chain(1, 4, &[9u8; 16], true);
    assert_eq!(thin.len(), 1);
}

#[test]
fn downsample_non_square_uses_row_stride_of_width() {
    // 4x2 image: row 0 pixels 0, 4, 8, 12; row 1 pixels 16, 20, 24, 28 (all channels equal).
    let mut src = Vec::new();
    for v in [0u8, 4, 8, 12, 16, 20, 24, 28] {
        src.extend_from_slice(&[v, v, v, v]);
    }
    let (w, h, out) = downsample_rgba_2x2(4, 2, &src);
    assert_eq!((w, h), (2, 1));
    assert_eq!(out, vec![10, 10, 10, 10, 18, 18, 18, 18]);
}

#[test]
fn mip_chain_non_square() {
    // 8x4 image whose pixel (x, y) holds x + 8 * y in every channel.
    let mut src = Vec::new();
    for y in 0..4u8 {
        for x in 0..8u8 {
            let v = x + 8 * y;
            src.extend_from_slice(&[v, v, v, v]);
        }
    }
    let levels = mip_chain(8, 4, &src, true);
    assert_eq!(levels.len(), 3);
    assert_eq!((levels[1].0, levels[1].1), (4, 2));
    // block at (0, 0): 0, 1, 8, 9 -> 4; block at (3, 1): 22, 23, 30, 31 -> 26
    assert_eq!(levels[1].2[0], 4);
    assert_eq!(levels[1].2[(1 * 4 + 3) * 4], 26);
    assert_eq!((levels[2].0, levels[2].1), (2, 1));
}
