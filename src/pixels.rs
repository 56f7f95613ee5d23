//! Recovery of straight-alpha RGBA pixels from the samples an operating
//! system hands out for its cursor.

use vstd::prelude::*;

verus! {

/// Straight-alpha value of a colour sample taken over black, rounded to the
/// nearest integer and capped at 255. Zero where the pixel is transparent.
pub open spec fn unmultiply(sample: int, alpha: int) -> int {
    if alpha <= 0 {
        0
    } else if (2 * sample * 255 + alpha) / (2 * alpha) > 255 {
        255
    } else {
        (2 * sample * 255 + alpha) / (2 * alpha)
    }
}

/// Rounds `sample * 255 / alpha` to the nearest integer, capped at 255.
pub fn unmultiply_sample(sample: u8, alpha: u8) -> (r: u8)
    ensures
        r as int == unmultiply(sample as int, alpha as int),
{
    if alpha == 0 {
        0
    } else {
        let v: u32 = (2 * (sample as u32) * 255 + alpha as u32) / (2 * (alpha as u32));
        if v > 255 {
            255
        } else {
            v as u8
        }
    }
}


/// Whether pixel `i` of two BGRA renders, one over black and one over white,
/// is an inversion pixel: some channel is brighter over black than over
/// white, which no alpha blend can produce.
pub open spec fn is_inversion_sample(black: Seq<u8>, white: Seq<u8>, i: int) -> bool {
    black[4 * i] > white[4 * i] || black[4 * i + 1] > white[4 * i + 1] || black[4 * i + 2]
        > white[4 * i + 2]
}

pub open spec fn max3(a: int, b: int, c: int) -> int {
    if a >= b && a >= c {
        a
    } else if b >= c {
        b
    } else {
        c
    }
}

/// Alpha of pixel `i` recovered from the two renders: 255 minus the largest
/// channel difference, clamped to `[0, 255]`.
pub open spec fn sample_alpha(black: Seq<u8>, white: Seq<u8>, i: int) -> int {
    let a = 255 - max3(
        white[4 * i] - black[4 * i],
        white[4 * i + 1] - black[4 * i + 1],
        white[4 * i + 2] - black[4 * i + 2],
    );
    if a < 0 {
        0
    } else if a > 255 {
        255
    } else {
        a
    }
}

/// Channel `c` (red, green, blue, alpha for `c` = 0..3) of output pixel `i`.
/// An inversion pixel becomes the inverse of its sample over black, opaque;
/// any other pixel gets the recovered alpha and its colour over black
/// divided by that alpha.
pub open spec fn dual_render_channel(black: Seq<u8>, white: Seq<u8>, i: int, c: int) -> int {
    if is_inversion_sample(black, white, i) {
        if c == 3 {
            255
        } else {
            255 - black[4 * i + 2 - c]
        }
    } else {
        let a = sample_alpha(black, white, i);
        if c == 3 {
            a
        } else {
            unmultiply(black[4 * i + 2 - c] as int, a)
        }
    }
}

/// Recovers straight-alpha RGBA from two BGRA renders of the same cursor,
/// one over solid black and one over solid white. Also reports whether any
/// inversion pixel was seen.
pub fn decompose_dual_render(black: &Vec<u8>, white: &Vec<u8>, pixel_count: usize) -> (r: (
    Vec<u8>,
    bool,
))
    requires
        black@.len() == 4 * pixel_count,
        white@.len() == 4 * pixel_count,
    ensures
        r.0@.len() == 4 * pixel_count,
        forall|i: int, c: int|
            0 <= i < pixel_count && 0 <= c < 4 ==> r.0@[4 * i + c] as int
                == #[trigger] dual_render_channel(black@, white@, i, c),
        r.1 == exists|i: int| 0 <= i < pixel_count && #[trigger] is_inversion_sample(black@, white@, i),
{
    let mut out: Vec<u8> = Vec::new();
    let mut has_inversion = false;
    let total: usize = black.len();
    let mut i: usize = 0;
    while i < pixel_count
        invariant
            i <= pixel_count,
            total as int == 4 * pixel_count,
            black@.len() == 4 * pixel_count,
            white@.len() == 4 * pixel_count,
            out@.len() == 4 * i,
            forall|j: int, c: int|
                0 <= j < i && 0 <= c < 4 ==> out@[4 * j + c] as int
                    == #[trigger] dual_render_channel(black@, white@, j, c),
            has_inversion == exists|j: int| 0 <= j < i && #[trigger] is_inversion_sample(black@, white@, j),
        decreases pixel_count - i,
    {
        let k = 4 * i;
        let bb = black[k];
        let bg = black[k + 1];
        let br = black[k + 2];
        let wb = white[k];
        let wg = white[k + 1];
        let wr = white[k + 2];
        let inverted = br > wr || bg > wg || bb > wb;
        let (r, g, b, a) = if inverted {
            (255 - br, 255 - bg, 255 - bb, 255u8)
        } else {
            let dr = wr - br;
            let dg = wg - bg;
            let db = wb - bb;
            let m = if db >= dg && db >= dr {
                db
            } else if dg >= dr {
                dg
            } else {
                dr
            };
            let a: u8 = 255 - m;
            (unmultiply_sample(br, a), unmultiply_sample(bg, a), unmultiply_sample(bb, a), a)
        };
        out.push(r);
        out.push(g);
        out.push(b);
        out.push(a);
        if inverted {
            has_inversion = true;
        }
        assert(is_inversion_sample(black@, white@, i as int) == inverted);
        assert forall|j: int, c: int|
            0 <= j < i + 1 && 0 <= c < 4 implies out@[4 * j + c] as int
                == #[trigger] dual_render_channel(black@, white@, j, c) by {
            if j == i {
                assert(out@[4 * j + c] == if c == 0 { r } else if c == 1 { g } else if c == 2 { b } else { a });
            }
        }
        i = i + 1;
    }
    (out, has_inversion)
}


/// Channel `c` of the pixel that a monochrome cursor's AND and XOR mask
/// values describe: (0, 0) black, (0, 1) white, (1, 0) transparent, (1, 1)
/// an inversion area, drawn as the opaque inverse of its look over black;
/// any other pair is an opaque grey of the XOR value.
pub open spec fn mask_channel(and_v: u8, xor_v: u8, c: int) -> int {
    if and_v == 0 && xor_v == 0 {
        if c == 3 { 255 } else { 0 }
    } else if and_v == 0 && xor_v == 255 {
        255
    } else if and_v == 255 && xor_v == 255 {
        if c == 3 { 255 } else { 0 }
    } else if and_v == 255 && xor_v == 0 {
        0
    } else {
        if c == 3 { 255 } else { xor_v as int }
    }
}

/// Whether pixel `i` of a double-height monochrome mask (AND half first, XOR
/// half after it, four bytes per pixel) is an inversion pixel.
pub open spec fn is_mask_inversion(mask: Seq<u8>, pixel_count: int, i: int) -> bool {
    mask[4 * i] == 255 && mask[4 * (i + pixel_count)] == 255
}

/// Converts a monochrome cursor mask into RGBA. The mask holds the AND
/// bitmap in its first `pixel_count` pixels and the XOR bitmap in the next
/// `pixel_count`, as 32-bit samples. Also reports whether any inversion
/// pixel was seen.
pub fn monochrome_mask_to_rgba(mask: &Vec<u8>, pixel_count: usize) -> (r: (Vec<u8>, bool))
    requires
        mask@.len() == 8 * pixel_count,
    ensures
        r.0@.len() == 4 * pixel_count,
        forall|i: int, c: int|
            0 <= i < pixel_count && 0 <= c < 4 ==> r.0@[4 * i + c] as int == #[trigger] mask_channel(
                mask@[4 * i],
                mask@[4 * (i + pixel_count)],
                c,
            ),
        r.1 == exists|i: int| 0 <= i < pixel_count && #[trigger] is_mask_inversion(mask@, pixel_count as int, i),
{
    let mut out: Vec<u8> = Vec::new();
    let mut has_inversion = false;
    let total: usize = mask.len();
    let mut i: usize = 0;
    while i < pixel_count
        invariant
            i <= pixel_count,
            total as int == 8 * pixel_count,
            mask@.len() == 8 * pixel_count,
            out@.len() == 4 * i,
            forall|j: int, c: int|
                0 <= j < i && 0 <= c < 4 ==> out@[4 * j + c] as int == #[trigger] mask_channel(
                    mask@[4 * j],
                    mask@[4 * (j + pixel_count)],
                    c,
                ),
            has_inversion == exists|j: int| 0 <= j < i && #[trigger] is_mask_inversion(mask@, pixel_count as int, j),
        decreases pixel_count - i,
    {
        let and_v = mask[4 * i];
        let xor_v = mask[4 * (i + pixel_count)];
        let (v, a): (u8, u8) = if and_v == 0 && xor_v == 0 {
            (0, 255)
        } else if and_v == 0 && xor_v == 255 {
            (255, 255)
        } else if and_v == 255 && xor_v == 255 {
            (0, 255)
        } else if and_v == 255 && xor_v == 0 {
            (0, 0)
        } else {
            (xor_v, 255)
        };
        out.push(v);
        out.push(v);
        out.push(v);
        out.push(a);
        let inverted = and_v == 255 && xor_v == 255;
        if inverted {
            has_inversion = true;
        }
        assert(is_mask_inversion(mask@, pixel_count as int, i as int) == inverted);
        assert forall|j: int, c: int|
            0 <= j < i + 1 && 0 <= c < 4 implies out@[4 * j + c] as int == #[trigger] mask_channel(
                mask@[4 * j],
                mask@[4 * (j + pixel_count)],
                c,
            ) by {
            if j == i {
                assert(out@[4 * j + c] == if c == 3 { a } else { v });
            }
        }
        i = i + 1;
    }
    (out, has_inversion)
}

/// Straight-alpha value of a premultiplied channel, rounded: divides by
/// alpha only where alpha is strictly between 0 and 255.
pub open spec fn unpremultiply(c: int, a: int) -> int {
    if 0 < a < 255 {
        let v = (c * 255 + a / 2) / a;
        if v > 255 {
            255
        } else {
            v
        }
    } else {
        c
    }
}

/// Byte `k` (0 = lowest) of a 32-bit pixel.
pub open spec fn pixel_byte(p: u32, k: int) -> u8 {
    if k == 0 {
        (p & 0xffu32) as u8
    } else if k == 1 {
        ((p >> 8u32) & 0xffu32) as u8
    } else if k == 2 {
        ((p >> 16u32) & 0xffu32) as u8
    } else {
        ((p >> 24u32) & 0xffu32) as u8
    }
}

/// Channel `c` of the straight RGBA pixel for premultiplied ARGB pixel `p`.
pub open spec fn argb_channel(p: u32, c: int) -> int {
    if c == 3 {
        pixel_byte(p, 3) as int
    } else {
        unpremultiply(pixel_byte(p, 2 - c) as int, pixel_byte(p, 3) as int)
    }
}

fn unpremultiply_byte(c: u8, a: u8) -> (r: u8)
    ensures
        r as int == unpremultiply(c as int, a as int),
{
    if a > 0 && a < 255 {
        let v: u32 = ((c as u32) * 255 + (a as u32) / 2) / (a as u32);
        if v > 255 {
            255
        } else {
            v as u8
        }
    } else {
        c
    }
}

/// Converts premultiplied ARGB pixels (one `u32` each, alpha in the top
/// byte) into straight RGBA. Pixels past the end of `pixels` stay
/// transparent black. The flag is set when no pixel has any alpha.
pub fn unpremultiply_argb(pixels: &Vec<u32>, pixel_count: usize) -> (r: (Vec<u8>, bool))
    requires
        4 * pixel_count <= usize::MAX,
    ensures
        r.0@.len() == 4 * pixel_count,
        forall|i: int, c: int|
            0 <= i < pixel_count && i < pixels@.len() && 0 <= c < 4 ==> r.0@[4 * i + c] as int
                == #[trigger] argb_channel(pixels@[i], c),
        forall|i: int, c: int|
            0 <= i < pixel_count && pixels@.len() <= i && 0 <= c < 4 ==> #[trigger] r.0@[4 * i + c] == 0,
        r.1 == forall|i: int| 0 <= i < pixel_count && i < pixels@.len() ==> #[trigger] pixel_byte(pixels@[i], 3) == 0,
{
    let mut out: Vec<u8> = Vec::new();
    let mut all_transparent = true;
    let mut i: usize = 0;
    while i < pixel_count
        invariant
            i <= pixel_count,
            4 * pixel_count <= usize::MAX,
            out@.len() == 4 * i,
            forall|j: int, c: int|
                0 <= j < i && j < pixels@.len() && 0 <= c < 4 ==> out@[4 * j + c] as int
                    == #[trigger] argb_channel(pixels@[j], c),
            forall|j: int, c: int|
                0 <= j < i && pixels@.len() <= j && 0 <= c < 4 ==> #[trigger] out@[4 * j + c] == 0,
            all_transparent == forall|j: int| 0 <= j < i && j < pixels@.len() ==> #[trigger] pixel_byte(pixels@[j], 3) == 0,
        decreases pixel_count - i,
    {
        if i < pixels.len() {
            let p = pixels[i];
            let a = #[verifier::truncate] (((p >> 24u32) & 0xffu32) as u8);
            let rr = #[verifier::truncate] (((p >> 16u32) & 0xffu32) as u8);
            let gg = #[verifier::truncate] (((p >> 8u32) & 0xffu32) as u8);
            let bb = #[verifier::truncate] ((p & 0xffu32) as u8);
            let r = unpremultiply_byte(rr, a);
            let g = unpremultiply_byte(gg, a);
            let b = unpremultiply_byte(bb, a);
            out.push(r);
            out.push(g);
            out.push(b);
            out.push(a);
            if a > 0 {
                all_transparent = false;
            }
            assert(pixel_byte(pixels@[i as int], 3) == a);
            assert forall|j: int, c: int|
                0 <= j < i + 1 && j < pixels@.len() && 0 <= c < 4 implies out@[4 * j + c] as int
                    == #[trigger] argb_channel(pixels@[j], c) by {
                if j == i {
                    assert(out@[4 * j + c] == if c == 0 { r } else if c == 1 { g } else if c == 2 { b } else { a });
                }
            }
        } else {
            out.push(0);
            out.push(0);
            out.push(0);
            out.push(0);
        }
        i = i + 1;
    }
    (out, all_transparent)
}


/// Channel `c` at column `x`, row `y` of a canvas grown by `pad` pixels on
/// every side around a `width` x `height` image: the image's pixel where it
/// lies inside, transparent black elsewhere.
pub open spec fn canvas_channel(
    rgba: Seq<u8>,
    width: int,
    height: int,
    pad: int,
    x: int,
    y: int,
    c: int,
) -> int {
    if pad <= x < pad + width && pad <= y < pad + height {
        rgba[4 * ((y - pad) * width + (x - pad)) + c] as int
    } else {
        0
    }
}

/// The whole canvas that `expand_canvas` produces, byte by byte.
pub open spec fn expanded_image(rgba: Seq<u8>, width: int, height: int, pad: int) -> Seq<u8> {
    let nw = width + 2 * pad;
    let nh = height + 2 * pad;
    Seq::new(
        (4 * nw * nh) as nat,
        |k: int| canvas_channel(rgba, width, height, pad, (k / 4) % nw, (k / 4) / nw, k % 4) as u8,
    )
}

/// The whole image that `add_white_outline` produces, byte by byte.
pub open spec fn outlined_image(rgba: Seq<u8>, width: int, height: int, radius: int) -> Seq<u8> {
    Seq::new(
        rgba.len(),
        |k: int| outline_channel(rgba, width, height, radius, (k / 4) % width, (k / 4) / width, k % 4) as u8,
    )
}

proof fn lemma_pixel_in_image(x: int, y: int, w: int, h: int)
    requires
        0 <= x < w,
        0 <= y < h,
    ensures
        0 <= y * w + x < w * h,
{
    assert(0 <= y * w) by (nonlinear_arith)
        requires
            0 <= y,
            0 <= w,
    ;
    assert(y * w + x < w * h) by (nonlinear_arith)
        requires
            0 <= x < w,
            0 <= y < h,
    ;
}

/// Grows the canvas by `pad` pixels on each side, keeping the image in the
/// middle. Returns the new buffer with its width and height; pixel `p` of
/// the result lies at column `p % new_width`, row `p / new_width`.
pub fn expand_canvas(rgba: &Vec<u8>, width: u32, height: u32, pad: u32) -> (r: (Vec<u8>, u32, u32))
    requires
        rgba@.len() == 4 * width * height,
        width + 2 * pad <= u32::MAX,
        height + 2 * pad <= u32::MAX,
        4 * (width + 2 * pad) * (height + 2 * pad) <= usize::MAX,
    ensures
        r.1 == width + 2 * pad,
        r.2 == height + 2 * pad,
        r.0@.len() == 4 * r.1 * r.2,
        r.0@ == expanded_image(rgba@, width as int, height as int, pad as int),
        forall|p: int, c: int|
            0 <= p < r.1 * r.2 && 0 <= c < 4 ==> r.0@[4 * p + c] as int == #[trigger] canvas_channel(
                rgba@,
                width as int,
                height as int,
                pad as int,
                p % (r.1 as int),
                p / (r.1 as int),
                c,
            ),
{
    let new_w: u32 = width + 2 * pad;
    let new_h: u32 = height + 2 * pad;
    assert((new_w as int) * (new_h as int) <= usize::MAX) by (nonlinear_arith)
        requires
            4 * new_w * new_h <= usize::MAX,
    ;
    let count: usize = (new_w as usize) * (new_h as usize);
    let total: usize = rgba.len();
    let mut out: Vec<u8> = Vec::new();
    let mut p: usize = 0;
    while p < count
        invariant
            p <= count,
            count == new_w * new_h,
            new_w == width + 2 * pad,
            new_h == height + 2 * pad,
            4 * new_w * new_h <= usize::MAX,
            rgba@.len() == 4 * width * height,
            total == rgba@.len(),
            out@.len() == 4 * p,
            forall|q: int, c: int|
                0 <= q < p && 0 <= c < 4 ==> out@[4 * q + c] as int == #[trigger] canvas_channel(
                    rgba@,
                    width as int,
                    height as int,
                    pad as int,
                    q % (new_w as int),
                    q / (new_w as int),
                    c,
                ),
        decreases count - p,
    {
        assert(new_w > 0) by (nonlinear_arith)
            requires
                p < count,
                count == new_w * new_h,
        ;
        let x: u32 = (p % (new_w as usize)) as u32;
        let yy: usize = p / (new_w as usize);
        assert(yy < new_h) by (nonlinear_arith)
            requires
                yy == (p as int) / (new_w as int),
                p < new_w * new_h,
                new_w > 0,
        ;
        let y: u32 = yy as u32;
        let inside = pad <= x && x < pad + width && pad <= y && y < pad + height;
        if inside {
            let sx = (x - pad) as usize;
            let sy = (y - pad) as usize;
            proof {
                lemma_pixel_in_image(sx as int, sy as int, width as int, height as int);
                assert(4 * (width * height) == 4 * width * height) by (nonlinear_arith);
            }
            let s = 4 * (sy * (width as usize) + sx);
            out.push(rgba[s]);
            out.push(rgba[s + 1]);
            out.push(rgba[s + 2]);
            out.push(rgba[s + 3]);
        } else {
            out.push(0);
            out.push(0);
            out.push(0);
            out.push(0);
        }
        assert forall|q: int, c: int|
            0 <= q < p + 1 && 0 <= c < 4 implies out@[4 * q + c] as int == #[trigger] canvas_channel(
                rgba@,
                width as int,
                height as int,
                pad as int,
                q % (new_w as int),
                q / (new_w as int),
                c,
            ) by {}
        p = p + 1;
    }
    assert(4 * (new_w * new_h) == 4 * new_w * new_h) by (nonlinear_arith);
    proof {
        let img = expanded_image(rgba@, width as int, height as int, pad as int);
        assert forall|k: int| 0 <= k < out@.len() implies out@[k] == img[k] by {
            let q = k / 4;
            let c = k % 4;
            assert(k == 4 * q + c);
            assert(0 <= q < count);
            assert(out@[4 * q + c] as int == canvas_channel(
                rgba@,
                width as int,
                height as int,
                pad as int,
                q % (new_w as int),
                q / (new_w as int),
                c,
            ));
        }
        assert(out@ =~= img);
    }
    (out, new_w, new_h)
}


/// Channel `c` at column `x`, row `y` of premultiplied BGRA rows of
/// `row_bytes` bytes, `bpp` bytes per pixel, made straight RGBA. A pixel
/// whose bytes run past the buffer, or narrower than four bytes, is
/// transparent black.
pub open spec fn bgra_channel(data: Seq<u8>, row_bytes: int, bpp: int, x: int, y: int, c: int) -> int {
    let src = y * row_bytes + x * bpp;
    if bpp >= 4 && src + bpp <= data.len() {
        if c == 3 {
            data[src + 3] as int
        } else {
            unpremultiply(data[src + 2 - c] as int, data[src + 3] as int)
        }
    } else {
        0
    }
}

/// Converts premultiplied BGRA rows (as CoreGraphics hands out a cursor)
/// into straight RGBA. Pixel `p` of the result lies at column `p % width`,
/// row `p / width`.
pub fn unpremultiply_bgra(data: &Vec<u8>, row_bytes: u32, bytes_per_pixel: u32, width: u32, height: u32) -> (r: Vec<u8>)
    requires
        4 * width * height <= usize::MAX,
    ensures
        r@.len() == 4 * width * height,
        forall|p: int, c: int|
            0 <= p < width * height && 0 <= c < 4 ==> r@[4 * p + c] as int == #[trigger] bgra_channel(
                data@,
                row_bytes as int,
                bytes_per_pixel as int,
                p % (width as int),
                p / (width as int),
                c,
            ),
{
    assert((width as int) * (height as int) <= usize::MAX) by (nonlinear_arith)
        requires
            4 * width * height <= usize::MAX,
    ;
    let count: usize = (width as usize) * (height as usize);
    let len: usize = data.len();
    let mut out: Vec<u8> = Vec::new();
    let mut p: usize = 0;
    while p < count
        invariant
            p <= count,
            count == width * height,
            4 * width * height <= usize::MAX,
            len == data@.len(),
            out@.len() == 4 * p,
            forall|q: int, c: int|
                0 <= q < p && 0 <= c < 4 ==> out@[4 * q + c] as int == #[trigger] bgra_channel(
                    data@,
                    row_bytes as int,
                    bytes_per_pixel as int,
                    q % (width as int),
                    q / (width as int),
                    c,
                ),
        decreases count - p,
    {
        assert(width > 0) by (nonlinear_arith)
            requires
                p < count,
                count == width * height,
        ;
        let x = (p % (width as usize)) as u128;
        let y = (p / (width as usize)) as u128;
        assert(y < height) by (nonlinear_arith)
            requires
                y == (p as int) / (width as int),
                p < width * height,
                width > 0,
        ;
        assert(y * (row_bytes as u128) <= 0xffff_ffff * 0xffff_ffff) by (nonlinear_arith)
            requires
                y < height,
        ;
        assert(x * (bytes_per_pixel as u128) <= 0xffff_ffff * 0xffff_ffff) by (nonlinear_arith)
            requires
                x < width,
        ;
        let src: u128 = y * (row_bytes as u128) + x * (bytes_per_pixel as u128);
        let bpp = bytes_per_pixel as u128;
        if bytes_per_pixel >= 4 && src + bpp <= len as u128 {
            let s = src as usize;
            let b = data[s];
            let g = data[s + 1];
            let rr = data[s + 2];
            let a = data[s + 3];
            out.push(unpremultiply_byte(rr, a));
            out.push(unpremultiply_byte(g, a));
            out.push(unpremultiply_byte(b, a));
            out.push(a);
        } else {
            out.push(0);
            out.push(0);
            out.push(0);
            out.push(0);
        }
        assert forall|q: int, c: int|
            0 <= q < p + 1 && 0 <= c < 4 implies out@[4 * q + c] as int == #[trigger] bgra_channel(
                data@,
                row_bytes as int,
                bytes_per_pixel as int,
                q % (width as int),
                q / (width as int),
                c,
            ) by {}
        p = p + 1;
    }
    assert(4 * (width * height) == 4 * width * height) by (nonlinear_arith);
    out
}

/// Whether the pixel at column `x`, row `y` is solid enough to cast an
/// outline (alpha above 200).
pub open spec fn opaque_at(rgba: Seq<u8>, width: int, x: int, y: int) -> bool {
    rgba[4 * (y * width + x) + 3] > 200
}

/// Squared distance between two pixels.
pub open spec fn dist2(x: int, y: int, qx: int, qy: int) -> int {
    (x - qx) * (x - qx) + (y - qy) * (y - qy)
}

/// The smallest `t` from `t` on, up to 255, with `t * (radius - 1) + 255 >=
/// 255 * sqrt(d2)`, that is `ceil(255 * (sqrt(d2) - 1) / (radius - 1))`.
pub open spec fn outline_fade(d2: int, radius: int, t: int) -> int
    decreases 255 - t,
{
    if t >= 255 || (t * (radius - 1) + 255) * (t * (radius - 1) + 255) >= 65025 * d2 {
        t
    } else {
        outline_fade(d2, radius, t + 1)
    }
}

/// Outline alpha at squared distance `d2` from the nearest solid pixel: 255
/// next to it, falling linearly to zero at `radius`, that is
/// `floor(255 * (radius - d) / (radius - 1))` for `d = sqrt(d2)` (255 at
/// distance one when the radius is one), and zero beyond the radius.
pub open spec fn outline_alpha(d2: int, radius: int) -> int {
    if d2 > radius * radius {
        0
    } else {
        255 - outline_fade(d2, radius, 0)
    }
}

/// `m` is the squared distance from (x, y) to its nearest solid pixel, and
/// lies within the radius.
pub open spec fn is_near_min(rgba: Seq<u8>, w: int, h: int, radius: int, x: int, y: int, m: int) -> bool {
    &&& m <= radius * radius
    &&& exists|qx: int, qy: int|
        0 <= qx < w && 0 <= qy < h && #[trigger] opaque_at(rgba, w, qx, qy) && dist2(x, y, qx, qy) == m
    &&& forall|qx: int, qy: int|
        0 <= qx < w && 0 <= qy < h && #[trigger] opaque_at(rgba, w, qx, qy) ==> dist2(x, y, qx, qy) >= m
}

/// Alpha of the outline at (x, y): set by the nearest solid pixel within the
/// radius, zero where there is none.
pub open spec fn near_alpha(rgba: Seq<u8>, w: int, h: int, radius: int, x: int, y: int) -> int {
    if exists|m: int| is_near_min(rgba, w, h, radius, x, y, m) {
        outline_alpha(choose|m: int| is_near_min(rgba, w, h, radius, x, y, m), radius)
    } else {
        0
    }
}

/// Channel `c` at (x, y) after outlining: a fully transparent pixel with a
/// positive outline alpha becomes white with that alpha; every other pixel
/// is kept.
pub open spec fn outline_channel(rgba: Seq<u8>, w: int, h: int, radius: int, x: int, y: int, c: int) -> int {
    let base = rgba[4 * (y * w + x) + c] as int;
    if rgba[4 * (y * w + x) + 3] > 0 {
        base
    } else {
        let a = near_alpha(rgba, w, h, radius, x, y);
        if a > 0 {
            if c == 3 {
                a
            } else {
                255
            }
        } else {
            base
        }
    }
}

fn fade_reached(t: u128, radius: u128, d2: u128) -> (r: bool)
    requires
        t <= 255,
        1 <= radius <= u32::MAX,
        d2 <= radius * radius,
    ensures
        r == ((t * (radius - 1) + 255) * (t * (radius - 1) + 255) >= 65025 * d2),
{
    assert(t * (radius - 1) <= 255 * 0xffff_ffff) by (nonlinear_arith)
        requires
            t <= 255,
            1 <= radius <= u32::MAX,
    ;
    let k: u128 = t * (radius - 1) + 255;
    assert(k * k <= 0x1_0000_0000_0000_0000_0000) by (nonlinear_arith)
        requires
            k <= 255 * 0xffff_ffff + 255,
    ;
    assert(65025 * d2 <= 65025 * 0xffff_ffff * 0xffff_ffff) by (nonlinear_arith)
        requires
            d2 <= radius * radius,
            1 <= radius <= u32::MAX,
    ;
    k * k >= 65025 * d2
}

fn outline_alpha_exec(d2: u128, radius: u128) -> (r: u8)
    requires
        1 <= radius <= u32::MAX,
        d2 <= radius * radius,
    ensures
        r as int == outline_alpha(d2 as int, radius as int),
{
    let mut t: u128 = 0;
    while t < 255 && !fade_reached(t, radius, d2)
        invariant
            t <= 255,
            1 <= radius <= u32::MAX,
            d2 <= radius * radius,
            outline_fade(d2 as int, radius as int, 0) == outline_fade(d2 as int, radius as int, t as int),
        decreases 255 - t,
    {
        t = t + 1;
    }
    (255 - t) as u8
}

proof fn lemma_far_away(x: int, y: int, qx: int, qy: int, r: int)
    requires
        r >= 0,
        x - qx > r || qx - x > r || y - qy > r || qy - y > r,
    ensures
        dist2(x, y, qx, qy) > r * r,
{
    assert(dist2(x, y, qx, qy) > r * r) by (nonlinear_arith)
        requires
            r >= 0,
            x - qx > r || qx - x > r || y - qy > r || qy - y > r,
    ;
}

/// Nearest solid pixel within the window of radius `r` around (x, y):
/// returns the smallest squared distance, if any solid pixel lies there.
fn nearest_in_window(rgba: &Vec<u8>, w: usize, h: usize, r: usize, x: usize, y: usize) -> (res: Option<u128>)
    requires
        rgba@.len() == 4 * w * h,
        1 <= r <= u32::MAX,
        x < w,
        y < h,
    ensures
        res matches Some(m) ==> (exists|qx: int, qy: int|
            0 <= qx < w && 0 <= qy < h && #[trigger] opaque_at(rgba@, w as int, qx, qy) && dist2(
                x as int,
                y as int,
                qx,
                qy,
            ) == m),
        forall|qx: int, qy: int|
            0 <= qx < w && 0 <= qy < h && #[trigger] opaque_at(rgba@, w as int, qx, qy) && dist2(
                x as int,
                y as int,
                qx,
                qy,
            ) <= r * r ==> (res matches Some(m) && dist2(x as int, y as int, qx, qy) >= m),
        forall|qx: int, qy: int|
            0 <= qx < w && 0 <= qy < h && #[trigger] opaque_at(rgba@, w as int, qx, qy) ==> (
            res matches Some(m) ==> dist2(x as int, y as int, qx, qy) >= m || dist2(
                x as int,
                y as int,
                qx,
                qy,
            ) > r * r),
{
    let total: usize = rgba.len();
    let x_lo: usize = if x >= r { x - r } else { 0 };
    let x_hi: usize = if (x as u128) + (r as u128) < (w as u128) { x + r } else { w - 1 };
    let y_lo: usize = if y >= r { y - r } else { 0 };
    let y_hi: usize = if (y as u128) + (r as u128) < (h as u128) { y + r } else { h - 1 };
    let mut best: u128 = 0;
    let mut found = false;
    let mut ny: usize = y_lo;
    while ny <= y_hi
        invariant
            total == rgba@.len(),
            rgba@.len() == 4 * w * h,
            1 <= r <= u32::MAX,
            x < w,
            y < h,
            x_lo <= x <= x_hi < w,
            y_lo <= y <= y_hi < h,
            x_lo == (if x >= r { x - r } else { 0 }),
            x_hi == (if x + r < w { x + r } else { w - 1 }),
            y_lo == (if y >= r { y - r } else { 0 }),
            y_hi == (if y + r < h { y + r } else { h - 1 }),
            y_lo <= ny <= y_hi + 1,
            found ==> exists|qx: int, qy: int|
                0 <= qx < w && 0 <= qy < h && #[trigger] opaque_at(rgba@, w as int, qx, qy) && dist2(
                    x as int,
                    y as int,
                    qx,
                    qy,
                ) == best,
            forall|qx: int, qy: int|
                x_lo <= qx <= x_hi && y_lo <= qy < ny && #[trigger] opaque_at(rgba@, w as int, qx, qy)
                    ==> found && dist2(x as int, y as int, qx, qy) >= best,
        decreases y_hi + 1 - ny,
    {
        let mut nx: usize = x_lo;
        while nx <= x_hi
            invariant
                total == rgba@.len(),
                rgba@.len() == 4 * w * h,
                1 <= r <= u32::MAX,
                x < w,
                y < h,
                x_lo <= x <= x_hi < w,
                y_lo <= y <= y_hi < h,
                x_lo == (if x >= r { x - r } else { 0 }),
                x_hi == (if x + r < w { x + r } else { w - 1 }),
                y_lo == (if y >= r { y - r } else { 0 }),
                y_hi == (if y + r < h { y + r } else { h - 1 }),
                y_lo <= ny <= y_hi,
                x_lo <= nx <= x_hi + 1,
                found ==> exists|qx: int, qy: int|
                    0 <= qx < w && 0 <= qy < h && #[trigger] opaque_at(rgba@, w as int, qx, qy) && dist2(
                        x as int,
                        y as int,
                        qx,
                        qy,
                    ) == best,
                forall|qx: int, qy: int|
                    ((x_lo <= qx <= x_hi && y_lo <= qy < ny) || (x_lo <= qx < nx && qy == ny))
                        && #[trigger] opaque_at(rgba@, w as int, qx, qy) ==> found && dist2(
                        x as int,
                        y as int,
                        qx,
                        qy,
                    ) >= best,
            decreases x_hi + 1 - nx,
        {
            proof {
                lemma_pixel_in_image(nx as int, ny as int, w as int, h as int);
                assert(4 * (w * h) == 4 * w * h) by (nonlinear_arith);
            }
            let q: usize = ny * w + nx;
            if rgba[4 * q + 3] > 200 {
                let dx: u128 = if x >= nx { (x - nx) as u128 } else { (nx - x) as u128 };
                let dy: u128 = if y >= ny { (y - ny) as u128 } else { (ny - y) as u128 };
                assert(dx * dx + dy * dy <= 2 * 0xffff_ffff * 0xffff_ffff) by (nonlinear_arith)
                    requires
                        dx <= r,
                        dy <= r,
                        r <= 0xffff_ffff,
                ;
                let d2: u128 = dx * dx + dy * dy;
                assert(d2 == dist2(x as int, y as int, nx as int, ny as int)) by (nonlinear_arith)
                    requires
                        d2 == dx * dx + dy * dy,
                        dx == (if x >= nx { x - nx } else { nx - x }),
                        dy == (if y >= ny { y - ny } else { ny - y }),
                ;
                assert(opaque_at(rgba@, w as int, nx as int, ny as int));
                if !found || d2 < best {
                    best = d2;
                    found = true;
                }
            }
            nx = nx + 1;
        }
        ny = ny + 1;
    }
    assert forall|qx: int, qy: int|
        0 <= qx < w && 0 <= qy < h && #[trigger] opaque_at(rgba@, w as int, qx, qy) implies (found
            && dist2(x as int, y as int, qx, qy) >= best) || dist2(x as int, y as int, qx, qy) > r * r by {
        if !(x_lo <= qx <= x_hi && y_lo <= qy <= y_hi) {
            lemma_far_away(x as int, y as int, qx, qy, r as int);
        }
    }
    if found {
        Some(best)
    } else {
        None
    }
}

/// Adds a white halo of `radius` pixels around the solid pixels (alpha above
/// 200), so that dark cursors stay visible on dark backgrounds. Each fully
/// transparent pixel within `radius` of a solid pixel turns white with an
/// alpha of 255 next to it, falling linearly to zero at `radius` (see
/// `outline_alpha`), where that alpha is positive; the halo is computed
/// from the old alphas only. Pixel `p` lies at column `p % width`, row
/// `p / width`.
pub fn add_white_outline(rgba: &mut Vec<u8>, width: u32, height: u32, radius: u32)
    requires
        old(rgba)@.len() == 4 * width * height,
        1 <= radius,
    ensures
        final(rgba)@.len() == old(rgba)@.len(),
        final(rgba)@ == outlined_image(old(rgba)@, width as int, height as int, radius as int),
        forall|p: int, c: int|
            0 <= p < width * height && 0 <= c < 4 ==> final(rgba)@[4 * p + c] as int
                == #[trigger] outline_channel(
                old(rgba)@,
                width as int,
                height as int,
                radius as int,
                p % (width as int),
                p / (width as int),
                c,
            ),
{
    let src: &Vec<u8> = rgba;
    let w = width as usize;
    let h = height as usize;
    let r = radius as usize;
    let total: usize = src.len();
    assert((w as int) * (h as int) <= usize::MAX) by (nonlinear_arith)
        requires
            total == 4 * w * h,
    ;
    let count: usize = w * h;
    let mut out: Vec<u8> = Vec::new();
    let mut p: usize = 0;
    while p < count
        invariant
            p <= count,
            count == w * h,
            w == width,
            h == height,
            r == radius,
            1 <= r <= u32::MAX,
            total == src@.len(),
            src@.len() == 4 * w * h,
            out@.len() == 4 * p,
            forall|q: int, c: int|
                0 <= q < p && 0 <= c < 4 ==> out@[4 * q + c] as int == #[trigger] outline_channel(
                    src@,
                    w as int,
                    h as int,
                    r as int,
                    q % (w as int),
                    q / (w as int),
                    c,
                ),
        decreases count - p,
    {
        assert(w > 0) by (nonlinear_arith)
            requires
                p < count,
                count == w * h,
        ;
        let x: usize = p % w;
        let y: usize = p / w;
        assert(y < h) by (nonlinear_arith)
            requires
                y == (p as int) / (w as int),
                p < w * h,
                w > 0,
        ;
        assert(p == y * w + x) by (nonlinear_arith)
            requires
                y == (p as int) / (w as int),
                x == (p as int) % (w as int),
                w > 0,
        ;
        assert(4 * p + 3 < total) by (nonlinear_arith)
            requires
                p < w * h,
                total == 4 * w * h,
        ;
        let a0 = src[4 * p + 3];
        let (cr, cg, cb, ca) = if a0 > 0 {
            (src[4 * p], src[4 * p + 1], src[4 * p + 2], a0)
        } else {
            let near = nearest_in_window(src, w, h, r, x, y);
            assert((r as int) * (r as int) <= 0xffff_ffff * 0xffff_ffff) by (nonlinear_arith)
                requires
                    1 <= r <= u32::MAX,
            ;
            let rr: u128 = (r as u128) * (r as u128);
            let alpha: u8 = match near {
                Some(m) => {
                    if m <= rr {
                        proof {
                            assert(is_near_min(src@, w as int, h as int, r as int, x as int, y as int, m as int));
                            let m2 = choose|m2: int| is_near_min(src@, w as int, h as int, r as int, x as int, y as int, m2);
                            let (ax, ay) = choose|qx: int, qy: int|
                                0 <= qx < w && 0 <= qy < h && #[trigger] opaque_at(src@, w as int, qx, qy) && dist2(x as int, y as int, qx, qy) == m2;
                            assert(opaque_at(src@, w as int, ax, ay));
                        }
                        outline_alpha_exec(m, r as u128)
                    } else {
                        proof {
                            assert(!exists|m2: int| is_near_min(src@, w as int, h as int, r as int, x as int, y as int, m2)) by {
                                if exists|m2: int| is_near_min(src@, w as int, h as int, r as int, x as int, y as int, m2) {
                                    let m2 = choose|m2: int| is_near_min(src@, w as int, h as int, r as int, x as int, y as int, m2);
                                    let (ax, ay) = choose|qx: int, qy: int|
                                        0 <= qx < w && 0 <= qy < h && #[trigger] opaque_at(src@, w as int, qx, qy) && dist2(x as int, y as int, qx, qy) == m2;
                                    assert(opaque_at(src@, w as int, ax, ay));
                                }
                            }
                        }
                        0
                    }
                },
                None => {
                    proof {
                        assert(!exists|m2: int| is_near_min(src@, w as int, h as int, r as int, x as int, y as int, m2)) by {
                            if exists|m2: int| is_near_min(src@, w as int, h as int, r as int, x as int, y as int, m2) {
                                let m2 = choose|m2: int| is_near_min(src@, w as int, h as int, r as int, x as int, y as int, m2);
                                let (ax, ay) = choose|qx: int, qy: int|
                                    0 <= qx < w && 0 <= qy < h && #[trigger] opaque_at(src@, w as int, qx, qy) && dist2(x as int, y as int, qx, qy) == m2;
                                assert(opaque_at(src@, w as int, ax, ay));
                            }
                        }
                    }
                    0
                },
            };
            if alpha > 0 {
                (255u8, 255u8, 255u8, alpha)
            } else {
                (src[4 * p], src[4 * p + 1], src[4 * p + 2], a0)
            }
        };
        out.push(cr);
        out.push(cg);
        out.push(cb);
        out.push(ca);
        assert forall|q: int, c: int|
            0 <= q < p + 1 && 0 <= c < 4 implies out@[4 * q + c] as int == #[trigger] outline_channel(
                src@,
                w as int,
                h as int,
                r as int,
                q % (w as int),
                q / (w as int),
                c,
            ) by {
            if q == p {
                assert(out@[4 * q + c] == if c == 0 { cr } else if c == 1 { cg } else if c == 2 { cb } else { ca });
            }
        }
        p = p + 1;
    }
    proof {
        assert(4 * (w * h) == 4 * w * h) by (nonlinear_arith);
        let img = outlined_image(src@, w as int, h as int, r as int);
        assert forall|k: int| 0 <= k < out@.len() implies out@[k] == img[k] by {
            let q = k / 4;
            let c = k % 4;
            assert(k == 4 * q + c);
            assert(0 <= q < count);
            assert(out@[4 * q + c] as int == outline_channel(
                src@,
                w as int,
                h as int,
                r as int,
                q % (w as int),
                q / (w as int),
                c,
            ));
        }
        assert(out@ =~= img);
    }
    *rgba = out;
}


/// Alpha recovery is exact on clean samples: a pixel of alpha `a` whose
/// premultiplied channels are `k` reads `k` over black and `k + 255 - a`
/// over white; it is not taken for an inversion pixel, its alpha comes back
/// as `a`, and each recovered colour is within one of the true straight
/// colour `255 * k / a`.
pub proof fn dual_render_recovers_alpha(kr: u8, kg: u8, kb: u8, a: u8)
    requires
        kr <= a,
        kg <= a,
        kb <= a,
    ensures
        ({
            let black = seq![kb, kg, kr, 0u8];
            let white = seq![(kb + 255 - a) as u8, (kg + 255 - a) as u8, (kr + 255 - a) as u8, 255u8];
            &&& !is_inversion_sample(black, white, 0)
            &&& dual_render_channel(black, white, 0, 3) == a
            &&& forall|c: int|
                0 <= c < 3 && a > 0 ==> #[trigger] dual_render_channel(black, white, 0, c) <= 255 && {
                    let k = black[2 - c] as int;
                    let v = dual_render_channel(black, white, 0, c);
                    -(a as int) <= v * a - 255 * k <= a as int
                }
        }),
{
    let black = seq![kb, kg, kr, 0u8];
    let white = seq![(kb + 255 - a) as u8, (kg + 255 - a) as u8, (kr + 255 - a) as u8, 255u8];
    assert(sample_alpha(black, white, 0) == a);
    assert forall|c: int| 0 <= c < 3 && a > 0 implies #[trigger] dual_render_channel(black, white, 0, c) <= 255 && {
        let k = black[2 - c] as int;
        let v = dual_render_channel(black, white, 0, c);
        -(a as int) <= v * a - 255 * k <= a as int
    } by {
        let k = black[2 - c] as int;
        lemma_unmultiply_close(k, a as int);
    }
}

proof fn lemma_unmultiply_close(k: int, a: int)
    requires
        0 <= k <= a,
        0 < a <= 255,
    ensures
        unmultiply(k, a) <= 255,
        -a <= unmultiply(k, a) * a - 255 * k <= a,
{
    let n = 2 * k * 255 + a;
    let d = 2 * a;
    let q = n / d;
    vstd::arithmetic::div_mod::lemma_fundamental_div_mod(n, d);
    vstd::arithmetic::div_mod::lemma_mod_bound(n, d);
    assert(n == d * q + n % d);
    assert(q <= 255) by (nonlinear_arith)
        requires
            n == d * q + n % d,
            0 <= n % d,
            n == 2 * k * 255 + a,
            d == 2 * a,
            k <= a,
            a > 0,
    ;
    assert(-a <= q * a - 255 * k <= a) by (nonlinear_arith)
        requires
            n == d * q + n % d,
            0 <= n % d < d,
            n == 2 * k * 255 + a,
            d == 2 * a,
            a > 0,
    ;
}

} // verus!
