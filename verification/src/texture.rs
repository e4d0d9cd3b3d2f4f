//! Texture data helpers: procedural checkerboard, mip level count, 2x2 box downsampling.
//!
//! All images are tightly packed RGBA8, row-major, 4 bytes per pixel.

use vstd::prelude::*;

verus! {

/// Byte offset of channel `c` of pixel `(x, y)` in a tightly packed RGBA image of the given width.
pub open spec fn rgba_index(width: int, x: int, y: int, c: int) -> int {
    (y * width + x) * 4 + c
}

/// Channel `c` of the checkerboard colour at pixel `(x, y)`: `light` on even `x + y`, `dark` on odd.
pub open spec fn checker_channel(light: [u8; 4], dark: [u8; 4], x: int, y: int, c: int) -> u8 {
    if (x + y) % 2 == 0 {
        light@[c]
    } else {
        dark@[c]
    }
}

proof fn lemma_pixel_index_step(w: int, x: int, y: int)
    requires
        0 <= x,
        0 <= y,
        0 < w,
    ensures
        (y * w + x) * 4 + 4 == (y * w + x + 1) * 4,
        (y + 1) * w == y * w + w,
        y * w >= 0,
{
    assert((y + 1) * w == y * w + w) by (nonlinear_arith);
    assert(y * w >= 0) by (nonlinear_arith)
        requires
            0 <= y,
            0 < w,
    ;
}

/// Distinct pixels of a row-major image occupy disjoint 4-byte slots: the slot of `(x1, y1)` lies
/// below the slot of `(x2, y2)` whenever `(x1, y1)` comes first in row-major order.
proof fn lemma_row_major_order(w: int, x1: int, y1: int, x2: int, y2: int)
    requires
        0 <= x1 < w,
        0 <= x2 < w,
        0 <= y1,
        0 <= y2,
        y1 < y2 || (y1 == y2 && x1 < x2),
    ensures
        y1 * w + x1 < y2 * w + x2,
{
    if y1 < y2 {
        assert(y1 * w + w <= y2 * w) by (nonlinear_arith)
            requires
                y1 < y2,
                0 < w,
        ;
    }
}

/// The RGBA bytes of a `size` x `size` checkerboard: pixel `(x, y)` is `light` when
/// `x + y` is even and `dark` otherwise. Rows are stored top to bottom, 4 bytes per pixel.
fn checker_bytes(size: u32, light: [u8; 4], dark: [u8; 4]) -> (rgba: Vec<u8>)
    requires
        size * size * 4 <= usize::MAX,
    ensures
        rgba@.len() == size * size * 4,
        forall|x: int, y: int, c: int|
            0 <= x < size && 0 <= y < size && 0 <= c < 4 ==> #[trigger] rgba@[rgba_index(
                size as int,
                x,
                y,
                c,
            )] == checker_channel(light, dark, x, y, c),
{
    let mut rgba: Vec<u8> = Vec::new();
    if size == 0 {
        return rgba;
    }
    assert(size <= 0x8000_0000u64) by (nonlinear_arith)
        requires
            size * size * 4 <= usize::MAX,
            usize::MAX <= u64::MAX,
    ;
    let mut y: u32 = 0;
    while y < size
        invariant
            0 < size <= 0x8000_0000u64,
            y <= size,
            rgba@.len() == y * size * 4,
            forall|xx: int, yy: int, c: int|
                0 <= xx < size && 0 <= yy < y && 0 <= c < 4 ==> #[trigger] rgba@[rgba_index(
                    size as int,
                    xx,
                    yy,
                    c,
                )] == checker_channel(light, dark, xx, yy, c),
        decreases size - y,
    {
        let mut x: u32 = 0;
        proof {
            lemma_pixel_index_step(size as int, 0, y as int);
        }
        while x < size
            invariant
                0 < size <= 0x8000_0000u64,
                y < size,
                x <= size,
                rgba@.len() == (y * size + x) * 4,
                forall|xx: int, yy: int, c: int|
                    0 <= xx < size && 0 <= yy <= y && (yy < y || xx < x) && 0 <= c < 4
                        ==> #[trigger] rgba@[rgba_index(size as int, xx, yy, c)]
                        == checker_channel(light, dark, xx, yy, c),
            decreases size - x,
        {
            let color = if ((x + y) % 2) == 0 {
                light
            } else {
                dark
            };
            let ghost before = rgba@;
            proof {
                lemma_pixel_index_step(size as int, x as int, y as int);
            }
            rgba.push(color[0]);
            rgba.push(color[1]);
            rgba.push(color[2]);
            rgba.push(color[3]);
            proof {
                let base = (y * size + x) * 4;
                assert forall|xx: int, yy: int, c: int|
                    0 <= xx < size && 0 <= yy <= y && (yy < y || xx < x + 1) && 0 <= c < 4
                        implies #[trigger] rgba@[rgba_index(size as int, xx, yy, c)]
                        == checker_channel(light, dark, xx, yy, c) by {
                    if yy == y && xx == x {
                        assert(rgba_index(size as int, xx, yy, c) == base + c);
                    } else {
                        lemma_row_major_order(size as int, xx, yy, x as int, y as int);
                        assert(yy * size + xx + 1 <= y * size + x);
                        assert(rgba_index(size as int, xx, yy, c) < base);
                        assert(rgba@[rgba_index(size as int, xx, yy, c)] == before[rgba_index(
                            size as int,
                            xx,
                            yy,
                            c,
                        )]);
                    }
                }
            }
            x = x + 1;
        }
        proof {
            lemma_pixel_index_step(size as int, 0, y as int);
        }
        y = y + 1;
    }
    rgba
}

/// Generate a `size` x `size` procedural checkerboard. Returns `(width, height, rgba)`: both
/// sides are `size`, and pixel `(x, y)` of the RGBA bytes is `light` when `x + y` is even and
/// `dark` otherwise. Rows are stored top to bottom, 4 bytes per pixel.
pub fn procedural_checker_rgba(size: u32, light: [u8; 4], dark: [u8; 4]) -> (res: (u32, u32, Vec<u8>))
    requires
        size * size * 4 <= usize::MAX,
    ensures
        res.0 == size,
        res.1 == size,
        res.2@.len() == size * size * 4,
        forall|x: int, y: int, c: int|
            0 <= x < size && 0 <= y < size && 0 <= c < 4 ==> #[trigger] res.2@[rgba_index(
                size as int,
                x,
                y,
                c,
            )] == checker_channel(light, dark, x, y, c),
{
    (size, size, checker_bytes(size, light, dark))
}

/// `floor(log2(n))` for `n >= 1`, and 0 for `n <= 1`.
pub open spec fn floor_log2(n: nat) -> nat
    decreases n,
{
    if n <= 1 {
        0
    } else {
        1 + floor_log2(n / 2)
    }
}

/// Mip level count for a texture of the given size: 0 when either side is 0, otherwise
/// `floor(log2(min(width, height))) + 1`, capped at 16.
pub open spec fn spec_mip_level_count(width: u32, height: u32) -> nat {
    let min_dim = if width <= height {
        width
    } else {
        height
    };
    if min_dim == 0 {
        0
    } else if floor_log2(min_dim as nat) + 1 <= 16 {
        floor_log2(min_dim as nat) + 1
    } else {
        16
    }
}

proof fn lemma_floor_log2_bound(n: nat)
    ensures
        floor_log2(n) <= n,
    decreases n,
{
    if n > 1 {
        lemma_floor_log2_bound(n / 2);
    }
}

/// `floor(log2(n))` of a positive 32-bit value.
fn ilog2_u32(n: u32) -> (r: u32)
    requires
        n > 0,
    ensures
        r == floor_log2(n as nat),
{
    let mut v: u32 = n;
    let mut k: u32 = 0;
    proof {
        lemma_floor_log2_bound(n as nat);
    }
    while v > 1
        invariant
            v >= 1,
            k + floor_log2(v as nat) == floor_log2(n as nat),
            floor_log2(n as nat) <= n,
        decreases v,
    {
        v = v / 2;
        k = k + 1;
    }
    k
}

/// Compute mip level count for a given width and height.
pub fn mip_level_count(width: u32, height: u32) -> (r: u32)
    ensures
        r == spec_mip_level_count(width, height),
{
    let min_dim = if width <= height {
        width
    } else {
        height
    };
    if min_dim == 0 {
        0
    } else {
        let k = ilog2_u32(min_dim);
        if k >= 16 {
            16
        } else {
            k + 1
        }
    }
}

/// Smaller of two values.
pub open spec fn min_int(a: int, b: int) -> int {
    if a <= b {
        a
    } else {
        b
    }
}

/// Larger of two values.
pub open spec fn max_int(a: int, b: int) -> int {
    if a >= b {
        a
    } else {
        b
    }
}

/// Width of the downsampled image: half the width, at least 1.
pub open spec fn half_dim(d: u32) -> int {
    max_int((d / 2) as int, 1)
}

/// The four source byte offsets sampled for output pixel `(x, y)` (before adding the channel):
/// the 2x2 block at `(2x, 2y)`, clamped to the image and to the last full pixel of the buffer.
/// Rows are `width * 4` bytes apart.
pub open spec fn sample_offsets(width: u32, height: u32, len: nat, x: int, y: int) -> (
    int,
    int,
    int,
    int,
) {
    let sx = min_int(x * 2, max_int(width - 1, 0));
    let sy = min_int(y * 2, max_int(height - 1, 0));
    let row = width * 4;
    let last = max_int(len - 4, 0);
    let sx1 = min_int(sx + 1, width as int);
    let sy1 = min_int(sy + 1, height as int);
    (
        min_int(sy * row + sx * 4, last),
        min_int(sy * row + sx1 * 4, last),
        min_int(sy1 * row + sx * 4, last),
        min_int(sy1 * row + sx1 * 4, last),
    )
}

/// Channel `c` of output pixel `(x, y)`: the truncated mean of the four sampled source bytes.
pub open spec fn downsampled_channel(width: u32, height: u32, src: Seq<u8>, x: int, y: int, c: int) -> int {
    let (i00, i01, i10, i11) = sample_offsets(width, height, src.len(), x, y);
    (src[i00 + c] + src[i01 + c] + src[i10 + c] + src[i11 + c]) / 4
}

/// Channel `c` of pixel `(x, y)` of the 2x2 box filter of a row-major image of the given width:
/// the truncated mean of the four pixels of the block whose top-left pixel is `(2x, 2y)`.
pub open spec fn box_channel(width: u32, src: Seq<u8>, x: int, y: int, c: int) -> int {
    let w = width as int;
    (src[rgba_index(w, 2 * x, 2 * y, c)] + src[rgba_index(w, 2 * x + 1, 2 * y, c)] + src[rgba_index(
        w,
        2 * x,
        2 * y + 1,
        c,
    )] + src[rgba_index(w, 2 * x + 1, 2 * y + 1, c)]) / 4
}

/// On an image of even sides, at least 2x2, that fills its buffer, the sampled offsets are the
/// four pixels of the block, unclamped.
proof fn lemma_block_samples(width: u32, height: u32, src: Seq<u8>, x: int, y: int, c: int)
    requires
        width >= 2,
        height >= 2,
        width % 2 == 0,
        height % 2 == 0,
        src.len() == width * height * 4,
        0 <= x < width / 2,
        0 <= y < height / 2,
        0 <= c < 4,
    ensures
        downsampled_channel(width, height, src, x, y, c) == box_channel(width, src, x, y, c),
{
    let w = width as int;
    let h = height as int;
    assert(2 * x + 1 <= w - 1);
    assert(2 * y + 1 <= h - 1);
    assert((2 * y + 1) * (w * 4) + (2 * x + 1) * 4 <= h * w * 4 - 4) by (nonlinear_arith)
        requires
            0 <= 2 * y + 1 <= h - 1,
            0 <= 2 * x + 1 <= w - 1,
    ;
    assert(h * w * 4 == width * height * 4) by (nonlinear_arith)
        requires
            w == width,
            h == height,
    ;
    assert(forall|yy: int, xx: int| #[trigger] (yy * (w * 4) + xx * 4) == (yy * w + xx) * 4) by (nonlinear_arith);
    assert((2 * y) * (w * 4) + (2 * x) * 4 <= (2 * y + 1) * (w * 4) + (2 * x + 1) * 4) by (nonlinear_arith)
        requires
            w >= 0,
    ;
    assert((2 * y) * (w * 4) + (2 * x + 1) * 4 <= (2 * y + 1) * (w * 4) + (2 * x + 1) * 4) by (nonlinear_arith)
        requires
            w >= 0,
    ;
    assert((2 * y + 1) * (w * 4) + (2 * x) * 4 <= (2 * y + 1) * (w * 4) + (2 * x + 1) * 4);
    assert((2 * y) * (w * 4) + (2 * x) * 4 == (2 * y * w + 2 * x) * 4);
    assert((2 * y) * (w * 4) + (2 * x + 1) * 4 == (2 * y * w + 2 * x + 1) * 4);
    assert((2 * y + 1) * (w * 4) + (2 * x) * 4 == ((2 * y + 1) * w + 2 * x) * 4);
    assert((2 * y + 1) * (w * 4) + (2 * x + 1) * 4 == ((2 * y + 1) * w + 2 * x + 1) * 4);
}

/// Downsample RGBA by a 2x2 box filter. Returns `(new_width, new_height, rgba)` where the new
/// sides are half the old ones (at least 1). Every sample index is clamped to the image and to the
/// last full pixel of `rgba`, so any buffer of at least one pixel is accepted.
pub fn downsample_rgba_2x2(width: u32, height: u32, rgba: &[u8]) -> (res: (u32, u32, Vec<u8>))
    requires
        rgba@.len() >= 4,
        4 * width * height + 4 * width <= usize::MAX,
    ensures
        res.0 == half_dim(width),
        res.1 == half_dim(height),
        res.2@.len() == res.0 * res.1 * 4,
        forall|x: int, y: int, c: int|
            0 <= x < res.0 && 0 <= y < res.1 && 0 <= c < 4 ==> #[trigger] res.2@[rgba_index(
                res.0 as int,
                x,
                y,
                c,
            )] == downsampled_channel(width, height, rgba@, x, y, c),
        width >= 2 && height >= 2 && width % 2 == 0 && height % 2 == 0 && rgba@.len() == width
            * height * 4 ==> forall|x: int, y: int, c: int|
            0 <= x < res.0 && 0 <= y < res.1 && 0 <= c < 4 ==> #[trigger] res.2@[rgba_index(
                res.0 as int,
                x,
                y,
                c,
            )] == box_channel(width, rgba@, x, y, c),
{
    let w: u32 = if width / 2 >= 1 {
        width / 2
    } else {
        1
    };
    let h: u32 = if height / 2 >= 1 {
        height / 2
    } else {
        1
    };
    let mut out: Vec<u8> = Vec::new();
    let len = rgba.len();
    let last: usize = len - 4;
    let wmax: u32 = width.saturating_sub(1);
    let hmax: u32 = height.saturating_sub(1);
    proof {
        assert(0 <= 4 * width * height) by (nonlinear_arith);
    }
    let row: usize = (width as usize) * 4;
    let mut y: u32 = 0;
    while y < h
        invariant
            w == half_dim(width),
            h == half_dim(height),
            y <= h,
            len == rgba@.len(),
            len >= 4,
            last == len - 4,
            wmax == max_int(width - 1, 0),
            hmax == max_int(height - 1, 0),
            row == width * 4,
            4 * width * height + 4 * width <= usize::MAX,
            out@.len() == y * w * 4,
            forall|xx: int, yy: int, c: int|
                0 <= xx < w && 0 <= yy < y && 0 <= c < 4 ==> #[trigger] out@[rgba_index(
                    w as int,
                    xx,
                    yy,
                    c,
                )] == downsampled_channel(width, height, rgba@, xx, yy, c),
        decreases h - y,
    {
        let mut x: u32 = 0;
        proof {
            lemma_pixel_index_step(w as int, 0, y as int);
        }
        while x < w
            invariant
                w == half_dim(width),
                h == half_dim(height),
                y < h,
                x <= w,
                len == rgba@.len(),
                len >= 4,
                last == len - 4,
                wmax == max_int(width - 1, 0),
                hmax == max_int(height - 1, 0),
                row == width * 4,
                4 * width * height + 4 * width <= usize::MAX,
                out@.len() == (y * w + x) * 4,
                forall|xx: int, yy: int, c: int|
                    0 <= xx < w && 0 <= yy <= y && (yy < y || xx < x) && 0 <= c < 4
                        ==> #[trigger] out@[rgba_index(w as int, xx, yy, c)]
                        == downsampled_channel(width, height, rgba@, xx, yy, c),
            decreases w - x,
        {
            let sx: usize = (if x * 2 <= wmax {
                x * 2
            } else {
                wmax
            }) as usize;
            let sy: usize = (if y * 2 <= hmax {
                y * 2
            } else {
                hmax
            }) as usize;
            let sx1: usize = if sx + 1 <= width as usize {
                sx + 1
            } else {
                width as usize
            };
            let sy1: usize = if sy + 1 <= height as usize {
                sy + 1
            } else {
                height as usize
            };
            proof {
                assert(sy * row <= height * row) by (nonlinear_arith)
                    requires
                        sy <= height,
                        row >= 0,
                ;
                assert(sy1 * row <= height * row) by (nonlinear_arith)
                    requires
                        sy1 <= height,
                        row >= 0,
                ;
                assert(height * row == 4 * width * height) by (nonlinear_arith)
                    requires
                        row == width * 4,
                ;
            }
            let a00 = sy * row + sx * 4;
            let a01 = sy * row + sx1 * 4;
            let a10 = sy1 * row + sx * 4;
            let a11 = sy1 * row + sx1 * 4;
            let i00 = if a00 <= last {
                a00
            } else {
                last
            };
            let i01 = if a01 <= last {
                a01
            } else {
                last
            };
            let i10 = if a10 <= last {
                a10
            } else {
                last
            };
            let i11 = if a11 <= last {
                a11
            } else {
                last
            };
            let ghost offs = sample_offsets(width, height, rgba@.len(), x as int, y as int);
            assert(offs == (i00 as int, i01 as int, i10 as int, i11 as int));
            let ghost before = out@;
            proof {
                lemma_pixel_index_step(w as int, x as int, y as int);
            }
            let mut c: usize = 0;
            while c < 4
                invariant
                    c <= 4,
                    len == rgba@.len(),
                    i00 + 4 <= len,
                    i01 + 4 <= len,
                    i10 + 4 <= len,
                    i11 + 4 <= len,
                    offs == (i00 as int, i01 as int, i10 as int, i11 as int),
                    offs == sample_offsets(width, height, rgba@.len(), x as int, y as int),
                    out@.len() == before.len() + c,
                    forall|k: int| 0 <= k < before.len() ==> out@[k] == before[k],
                    forall|k: int|
                        0 <= k < c ==> #[trigger] out@[before.len() + k] == downsampled_channel(
                            width,
                            height,
                            rgba@,
                            x as int,
                            y as int,
                            k,
                        ),
                decreases 4 - c,
            {
                let v = (rgba[i00 + c] as u32 + rgba[i01 + c] as u32 + rgba[i10 + c] as u32
                    + rgba[i11 + c] as u32) / 4;
                out.push(v as u8);
                proof {
                    let s = rgba@;
                    let ci = c as int;
                    assert(offs.0 == i00 && offs.1 == i01 && offs.2 == i10 && offs.3 == i11);
                    assert(v == (s[i00 + ci] + s[i01 + ci] + s[i10 + ci] + s[i11 + ci]) / 4);
                    assert(v < 256);
                    assert(v == downsampled_channel(
                        width,
                        height,
                        rgba@,
                        x as int,
                        y as int,
                        c as int,
                    ));
                    assert(out@[before.len() + c] == v as u8);
                }
                c = c + 1;
            }
            proof {
                let base = (y * w + x) * 4;
                assert(before.len() == base);
                assert forall|xx: int, yy: int, k: int|
                    0 <= xx < w && 0 <= yy <= y && (yy < y || xx < x + 1) && 0 <= k < 4
                        implies #[trigger] out@[rgba_index(w as int, xx, yy, k)]
                        == downsampled_channel(width, height, rgba@, xx, yy, k) by {
                    if yy == y && xx == x {
                        assert(rgba_index(w as int, xx, yy, k) == base + k);
                        assert(out@[before.len() + k] == downsampled_channel(
                            width,
                            height,
                            rgba@,
                            x as int,
                            y as int,
                            k,
                        ));
                    } else {
                        lemma_row_major_order(w as int, xx, yy, x as int, y as int);
                        assert(yy * w + xx + 1 <= y * w + x);
                        assert(rgba_index(w as int, xx, yy, k) < base);
                        assert(out@[rgba_index(w as int, xx, yy, k)] == before[rgba_index(
                            w as int,
                            xx,
                            yy,
                            k,
                        )]);
                    }
                }
            }
            x = x + 1;
        }
        proof {
            lemma_pixel_index_step(w as int, 0, y as int);
        }
        y = y + 1;
    }
    proof {
        assert(h * w * 4 == w * h * 4) by (nonlinear_arith);
        if width >= 2 && height >= 2 && width % 2 == 0 && height % 2 == 0 && rgba@.len() == width
            * height * 4 {
            assert forall|x: int, y: int, c: int| 0 <= x < w && 0 <= y < h && 0 <= c < 4 implies #[trigger] out@[rgba_index(
                w as int,
                x,
                y,
                c,
            )] == box_channel(width, rgba@, x, y, c) by {
                lemma_block_samples(width, height, rgba@, x, y, c);
            }
        }
    }
    (w, h, out)
}

/// `out`, of `nw` x `nh` pixels, is the 2x2 box downsample of `src`, of `w` x `h` pixels (see
/// `downsample_rgba_2x2`).
pub open spec fn is_downsample(w: u32, h: u32, src: Seq<u8>, nw: u32, nh: u32, out: Seq<u8>) -> bool {
    &&& nw == half_dim(w)
    &&& nh == half_dim(h)
    &&& out.len() == nw * nh * 4
    &&& forall|x: int, y: int, c: int|
        0 <= x < nw && 0 <= y < nh && 0 <= c < 4 ==> #[trigger] out[rgba_index(nw as int, x, y, c)]
            == downsampled_channel(w, h, src, x, y, c)
}

/// Number of mip levels uploaded for a texture: the full chain when mipmaps are wanted and both
/// sides exceed one pixel, else the base level alone.
pub open spec fn mip_count_for(width: u32, height: u32, with_mipmaps: bool) -> nat {
    if with_mipmaps && width > 1 && height > 1 {
        spec_mip_level_count(width, height)
    } else {
        1
    }
}

/// Level `b` follows level `a` of a mip chain: it is `a` downsampled when both sides of `a`
/// exceed one pixel, else `a` again.
pub open spec fn next_level(a: (u32, u32, Vec<u8>), b: (u32, u32, Vec<u8>)) -> bool {
    if a.0 > 1 && a.1 > 1 {
        is_downsample(a.0, a.1, a.2@, b.0, b.1, b.2@)
    } else {
        b.0 == a.0 && b.1 == a.1 && b.2@ == a.2@
    }
}

/// The mip levels of an RGBA texture, as uploaded to the GPU: `(width, height, rgba)` of each
/// level, the base level first, each further level the 2x2 downsample of the one before.
pub fn mip_chain(width: u32, height: u32, rgba: &[u8], with_mipmaps: bool) -> (levels: Vec<(u32, u32, Vec<u8>)>)
    requires
        rgba@.len() == width * height * 4,
        4 * width * height + 4 * width <= usize::MAX,
    ensures
        levels@.len() == mip_count_for(width, height, with_mipmaps),
        levels@[0].0 == width,
        levels@[0].1 == height,
        levels@[0].2@ == rgba@,
        forall|k: int| 0 <= k < levels@.len() - 1 ==> next_level(#[trigger] levels@[k], levels@[k + 1]),
{
    let count: u32 = if with_mipmaps && width > 1 && height > 1 {
        mip_level_count(width, height)
    } else {
        1
    };
    proof {
        if with_mipmaps && width > 1 && height > 1 {
            assert(spec_mip_level_count(width, height) >= 1);
        }
    }
    let mut levels: Vec<(u32, u32, Vec<u8>)> = Vec::new();
    let mut w: u32 = width;
    let mut h: u32 = height;
    let mut data: Vec<u8> = vstd::slice::slice_to_vec(rgba);
    let mut level: u32 = 0;
    while level < count
        invariant
            count == mip_count_for(width, height, with_mipmaps),
            count >= 1,
            level <= count,
            levels@.len() == level,
            w <= width,
            h <= height,
            4 * width * height + 4 * width <= usize::MAX,
            data@.len() == w * h * 4,
            level == 0 ==> w == width && h == height && data@ == rgba@,
            level > 0 ==> levels@[0].0 == width && levels@[0].1 == height && levels@[0].2@ == rgba@,
            0 < level < count ==> next_level(levels@[level - 1], (w, h, data)),
            forall|k: int| 0 <= k < levels@.len() - 1 ==> next_level(#[trigger] levels@[k], levels@[k + 1]),
        decreases count - level,
    {
        let ghost before = levels@;
        if level + 1 < count && w > 1 && h > 1 {
            proof {
                assert(w * h * 4 >= 4) by (nonlinear_arith)
                    requires
                        w > 1,
                        h > 1,
                ;
                assert(4 * w * h + 4 * w <= 4 * width * height + 4 * width) by (nonlinear_arith)
                    requires
                        w <= width,
                        h <= height,
                ;
            }
            let (nw, nh, next) = downsample_rgba_2x2(w, h, data.as_slice());
            levels.push((w, h, data));
            w = nw;
            h = nh;
            data = next;
        } else {
            let copy = vstd::slice::slice_to_vec(data.as_slice());
            levels.push((w, h, data));
            data = copy;
        }
        proof {
            assert forall|k: int| 0 <= k < levels@.len() - 1 implies next_level(
                #[trigger] levels@[k],
                levels@[k + 1],
            ) by {
                if k < before.len() - 1 {
                    assert(levels@[k] == before[k] && levels@[k + 1] == before[k + 1]);
                } else {
                    assert(levels@[k] == before[k]);
                }
            }
        }
        level = level + 1;
    }
    levels
}

} // verus!
