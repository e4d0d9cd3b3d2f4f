//! Readback helpers: row padding and conversion to bottom-up RGB.

use render::{padded_bytes_per_row, padded_rows_to_rgb_bottom_up};

#[test]
fn row_padding_rounds_up_to_alignment() {
    assert_eq!(padded_bytes_per_row(64, 4, 256), 256);
    assert_eq!(padded_bytes_per_row(65, 4, 256), 512);
    assert_eq!(padded_bytes_per_row(0, 4, 256), 0);
    assert_eq!(padded_bytes_per_row(3, 3, 4), 12);
}

#[test]
fn rows_are_flipped_and_alpha_dropped() {
    // 1x2 image, rows padded to 8 bytes.
    let data = [1, 2, 3, 4, 0, 0, 0, 0, 5, 6, 7, 8, 0, 0, 0, 0];
    assert_eq!(padded_rows_to_rgb_bottom_up(&data, 1, 2, 8, false), vec![5, 6, 7, 1, 2, 3]);
    assert_eq!(padded_rows_to_rgb_bottom_up(&data, 1, 2, 8, true), vec![7, 6, 5, 3, 2, 1]);
}
