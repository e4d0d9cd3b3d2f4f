//! Pixel readback layout: row padding for GPU buffer copies and conversion of padded
//! RGBA/BGRA rows into tightly packed RGB rows ordered bottom to top.

use vstd::prelude::*;

verus! {

/// Layout info for a pixel readback (padded row, dimensions, format).
#[derive(Clone, Copy, Debug)]
pub struct ReadbackLayout {
    /// Padded bytes per row (wgpu alignment).
    pub padded_bytes_per_row: u32,
    /// Width in pixels.
    pub width: u32,
    /// Height in pixels.
    pub height: u32,
    /// Whether the texture format is BGRA (so caller can swap when producing RGB).
    pub is_bgra: bool,
}

/// `ceil(n / d) * d`: the smallest multiple of `d` that is at least `n`.
pub open spec fn round_up(n: int, d: int) -> int {
    if n % d == 0 {
        n
    } else {
        n - n % d + d
    }
}

/// Padded bytes per row for a copy of `width` pixels of `bytes_per_pixel` bytes each:
/// the unpadded row length rounded up to a multiple of `align`.
pub fn padded_bytes_per_row(width: usize, bytes_per_pixel: usize, align: usize) -> (r: usize)
    requires
        align > 0,
        width * bytes_per_pixel + align <= usize::MAX,
    ensures
        r == round_up(width * bytes_per_pixel, align as int),
        r % align == 0,
        width * bytes_per_pixel <= r < width * bytes_per_pixel + align,
{
    proof {
        assert(width * bytes_per_pixel >= 0) by (nonlinear_arith);
    }
    let unpadded = width * bytes_per_pixel;
    let q = unpadded / align;
    let rem = unpadded % align;
    proof {
        assert(q * align + rem == unpadded) by (nonlinear_arith)
            requires
                q == unpadded / align,
                rem == unpadded % align,
                align > 0,
        ;
    }
    if rem == 0 {
        unpadded
    } else {
        proof {
            assert(((unpadded - rem + align) as int) % (align as int) == 0) by (nonlinear_arith)
                requires
                    q * align + rem == unpadded,
                    align > 0,
                    0 < rem < align,
            {
                assert(unpadded - rem + align == (q + 1) * align);
                vstd::arithmetic::div_mod::lemma_mod_multiples_basic(q + 1, align as int);
            }
        }
        unpadded - rem + align
    }
}

/// Source byte offset of channel `ch` (0 = R, 1 = G, 2 = B) of pixel `col` in padded source row
/// `src_row`: BGRA rows store red at +2 and blue at +0.
pub open spec fn source_channel_offset(padded: int, src_row: int, col: int, ch: int, is_bgra: bool) -> int {
    src_row * padded + col * 4 + if is_bgra {
        2 - ch
    } else {
        ch
    }
}

/// Offset of channel `ch` of pixel `col` in output row `k` of a packed RGB image.
pub open spec fn rgb_index(width: int, k: int, col: int, ch: int) -> int {
    (k * width + col) * 3 + ch
}

proof fn lemma_mul_le(a: int, b: int, c: int)
    requires
        0 <= a <= b,
        0 <= c,
    ensures
        a * c <= b * c,
{
    assert(a * c <= b * c) by (nonlinear_arith)
        requires
            0 <= a <= b,
            0 <= c,
    ;
}

/// Convert the mapped bytes of a pixel readback (top-left origin, 4 bytes per pixel, rows of
/// `padded_bytes_per_row` bytes) into packed RGB with rows ordered bottom to top. When `is_bgra`,
/// blue and red are swapped back so the output is always R, G, B.
pub fn padded_rows_to_rgb_bottom_up(
    data: &[u8],
    width: usize,
    height: usize,
    padded_bytes_per_row: usize,
    is_bgra: bool,
) -> (out: Vec<u8>)
    requires
        width * 4 <= padded_bytes_per_row,
        height * padded_bytes_per_row <= data@.len(),
        width * height * 3 <= usize::MAX,
    ensures
        out@.len() == width * height * 3,
        forall|k: int, col: int, ch: int|
            0 <= k < height && 0 <= col < width && 0 <= ch < 3 ==> #[trigger] out@[rgb_index(
                width as int,
                k,
                col,
                ch,
            )] == data@[source_channel_offset(
                padded_bytes_per_row as int,
                height - 1 - k,
                col,
                ch,
                is_bgra,
            )],
{
    let mut out: Vec<u8> = Vec::new();
    let dlen = data.len();
    let mut k: usize = 0;
    while k < height
        invariant
            k <= height,
            dlen == data@.len(),
            width * 4 <= padded_bytes_per_row,
            height * padded_bytes_per_row <= data@.len(),
            width * height * 3 <= usize::MAX,
            out@.len() == k * width * 3,
            forall|kk: int, col: int, ch: int|
                0 <= kk < k && 0 <= col < width && 0 <= ch < 3 ==> #[trigger] out@[rgb_index(
                    width as int,
                    kk,
                    col,
                    ch,
                )] == data@[source_channel_offset(
                    padded_bytes_per_row as int,
                    height - 1 - kk,
                    col,
                    ch,
                    is_bgra,
                )],
        decreases height - k,
    {
        let row = height - 1 - k;
        proof {
            lemma_mul_le(row as int + 1, height as int, padded_bytes_per_row as int);
            assert((row + 1) * padded_bytes_per_row == row * padded_bytes_per_row
                + padded_bytes_per_row) by (nonlinear_arith);
            lemma_mul_le(k as int + 1, height as int, width as int * 3);
            assert((k + 1) * (width * 3) == k * width * 3 + width * 3) by (nonlinear_arith);
            assert(height * (width * 3) == width * height * 3) by (nonlinear_arith);
        }
        let row_start = row * padded_bytes_per_row;
        let ghost row_base = out@.len();
        let mut col: usize = 0;
        while col < width
            invariant
                k < height,
                row == height - 1 - k,
                row_start == row * padded_bytes_per_row,
                row_start + padded_bytes_per_row <= data@.len(),
                dlen == data@.len(),
                width * 4 <= padded_bytes_per_row,
                col <= width,
                row_base == k * width * 3,
                out@.len() == row_base + col * 3,
                forall|kk: int, c2: int, ch: int|
                    0 <= kk < k && 0 <= c2 < width && 0 <= ch < 3 ==> #[trigger] out@[rgb_index(
                        width as int,
                        kk,
                        c2,
                        ch,
                    )] == data@[source_channel_offset(
                        padded_bytes_per_row as int,
                        height - 1 - kk,
                        c2,
                        ch,
                        is_bgra,
                    )],
                forall|c2: int, ch: int|
                    0 <= c2 < col && 0 <= ch < 3 ==> #[trigger] out@[row_base + c2 * 3 + ch]
                        == data@[source_channel_offset(
                        padded_bytes_per_row as int,
                        row as int,
                        c2,
                        ch,
                        is_bgra,
                    )],
            decreases width - col,
        {
            assert(col * 4 + 4 <= padded_bytes_per_row) by (nonlinear_arith)
                requires
                    col < width,
                    width * 4 <= padded_bytes_per_row,
            ;
            let pixel_start = row_start + col * 4;
            let ghost before = out@;
            proof {
                assert(out@.len() == row_base + col * 3);
            }
            if is_bgra {
                out.push(data[pixel_start + 2]);
                out.push(data[pixel_start + 1]);
                out.push(data[pixel_start]);
            } else {
                out.push(data[pixel_start]);
                out.push(data[pixel_start + 1]);
                out.push(data[pixel_start + 2]);
            }
            proof {
                assert forall|kk: int, c2: int, ch: int|
                    0 <= kk < k && 0 <= c2 < width && 0 <= ch < 3 implies #[trigger] out@[rgb_index(
                        width as int,
                        kk,
                        c2,
                        ch,
                    )] == data@[source_channel_offset(
                        padded_bytes_per_row as int,
                        height - 1 - kk,
                        c2,
                        ch,
                        is_bgra,
                    )] by {
                    lemma_mul_le(kk + 1, k as int, width as int);
                    assert((kk + 1) * width == kk * width + width) by (nonlinear_arith);
                    assert(k * width * 3 == (k * width) * 3) by (nonlinear_arith);
                    assert(rgb_index(width as int, kk, c2, ch) < row_base);
                    assert(out@[rgb_index(width as int, kk, c2, ch)] == before[rgb_index(
                        width as int,
                        kk,
                        c2,
                        ch,
                    )]);
                }
                assert forall|c2: int, ch: int|
                    0 <= c2 < col + 1 && 0 <= ch < 3 implies #[trigger] out@[row_base + c2 * 3 + ch]
                        == data@[source_channel_offset(
                        padded_bytes_per_row as int,
                        row as int,
                        c2,
                        ch,
                        is_bgra,
                    )] by {
                    if c2 < col {
                        assert(out@[row_base + c2 * 3 + ch] == before[row_base + c2 * 3 + ch]);
                    }
                }
            }
            col = col + 1;
        }
        proof {
            assert forall|kk: int, c2: int, ch: int|
                0 <= kk < k + 1 && 0 <= c2 < width && 0 <= ch < 3 implies #[trigger] out@[rgb_index(
                    width as int,
                    kk,
                    c2,
                    ch,
                )] == data@[source_channel_offset(
                    padded_bytes_per_row as int,
                    height - 1 - kk,
                    c2,
                    ch,
                    is_bgra,
                )] by {
                if kk == k {
                    assert(rgb_index(width as int, kk, c2, ch) == row_base + c2 * 3 + ch) by (nonlinear_arith)
                        requires
                            kk == k,
                            row_base == k * width * 3,
                    ;
                }
            }
            assert((k + 1) * width * 3 == k * width * 3 + width * 3) by (nonlinear_arith);
        }
        k = k + 1;
    }
    proof {
        assert(height * width * 3 == width * height * 3) by (nonlinear_arith);
    }
    out
}

} // verus!
