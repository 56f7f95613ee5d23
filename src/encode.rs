//! Image encodings: lossless WebP for cursors, animated WebP for cursors
//! with several frames, PNG for clipboard images.

use image::ImageEncoder;
use crate::digest::frames_view;
use vstd::prelude::*;

verus! {

/// Largest width or height a WebP image can have.
pub const WEBP_MAX_DIMENSION: u32 = 16383;

/// The lossless WebP encoding of a `width` x `height` RGBA image.
pub uninterp spec fn webp_lossless_of(rgba: Seq<u8>, width: u32, height: u32) -> Seq<u8>;

/// The PNG encoding of a `width` x `height` RGBA image.
pub uninterp spec fn png_of(rgba: Seq<u8>, width: u32, height: u32) -> Seq<u8>;

/// Longest time a frame of an animated WebP can show, in milliseconds
/// (libwebp's `MAX_DURATION`).
pub const MAX_FRAME_GAP_MS: i32 = 0x100_0000;

/// The frames an animation encoder holds, each RGBA frame with the time in
/// milliseconds from which it shows, in the order they were added.
pub uninterp spec fn anim_frames_added(e: webp_animation::Encoder) -> Seq<(Seq<u8>, i32)>;

/// The canvas size (width, height) an animation encoder was made with.
pub uninterp spec fn anim_canvas(e: webp_animation::Encoder) -> (u32, u32);

/// The animated WebP file of timed frames on a `width` x `height` canvas,
/// the last frame ending at `end_ms`, with the encoder's default options.
pub uninterp spec fn animated_webp_of(frames: Seq<(Seq<u8>, i32)>, width: u32, height: u32, end_ms: i32) -> Seq<u8>;

/// Timestamp of the last frame added, -1 before any.
pub open spec fn last_timestamp(frames: Seq<(Seq<u8>, i32)>) -> int {
    if frames.len() == 0 {
        -1
    } else {
        frames.last().1 as int
    }
}

/// Frames shown one after another, frame `i` from `i * delay_ms` on.
pub open spec fn timed_frames(frames: Seq<Seq<u8>>, delay_ms: i32) -> Seq<(Seq<u8>, i32)> {
    Seq::new(frames.len(), |i: int| (frames[i], (i * delay_ms) as i32))
}

/// Whether the PNG encoder takes an image of this size: no zero side, and
/// raw rows (a filter byte and four bytes a pixel) small enough that the
/// compressed data fits one chunk.
pub open spec fn png_size_ok(width: u32, height: u32) -> bool {
    1 <= width && 1 <= height && (4 * width + 1) * height <= 0x4000_0000
}

#[verifier::external_type_specification]
#[verifier::external_body]
pub struct ExAnimEncoder(webp_animation::Encoder);

#[verifier::external_type_specification]
#[verifier::external_body]
pub struct ExAnimError(webp_animation::Error);

#[verifier::external_type_specification]
#[verifier::external_body]
pub struct ExImageError(image::ImageError);

/// Why an image could not be encoded.
#[derive(Debug, Clone, Copy, PartialEq, Eq, Structural)]
pub enum EncodeError {
    /// Width or height is zero or larger than the format allows.
    BadDimensions,
    /// The encoder refused the frames or failed to assemble them.
    EncoderFailed,
}

/// Relies on `webp::Encoder::from_rgba` and `Encoder::encode_lossless`,
/// which panics only where libwebp rejects the dimensions or the buffer is
/// shorter than the image.
#[verifier::external_body]
fn webp_lossless(rgba: &[u8], width: u32, height: u32) -> (r: Vec<u8>)
    requires
        rgba@.len() == 4 * width * height,
        1 <= width <= WEBP_MAX_DIMENSION,
        1 <= height <= WEBP_MAX_DIMENSION,
    ensures
        r@ == webp_lossless_of(rgba@, width, height),
{
    webp::Encoder::from_rgba(rgba, width, height).encode_lossless().to_vec()
}

/// Relies on `webp_animation::Encoder::new`: it refuses a zero dimension,
/// and otherwise fails only where libwebp cannot allocate the encoder. A
/// new encoder holds no frame.
#[verifier::external_body]
fn anim_encoder_new(width: u32, height: u32) -> (r: Result<
    webp_animation::Encoder,
    webp_animation::Error,
>)
    ensures
        width == 0 || height == 0 ==> r is Err,
        1 <= width <= WEBP_MAX_DIMENSION && 1 <= height <= WEBP_MAX_DIMENSION ==> r is Ok,
        r matches Ok(e) ==> anim_frames_added(e) == Seq::<(Seq<u8>, i32)>::empty() && anim_canvas(e) == (
            width,
            height,
        ),
{
    webp_animation::Encoder::new((width, height))
}

/// Relies on `webp_animation::Encoder::add_frame`: adds one RGBA frame shown
/// from `timestamp_ms` on. It refuses a timestamp not above the last one and
/// a buffer whose length is not four bytes for each pixel of the canvas;
/// libwebp's `WebPAnimEncoderAdd` refuses a frame starting `MAX_FRAME_GAP_MS`
/// or more after the previous one, and otherwise fails only where it runs
/// out of memory.
#[verifier::external_body]
fn anim_encoder_add_frame(
    encoder: &mut webp_animation::Encoder,
    rgba: &[u8],
    timestamp_ms: i32,
) -> (r: Result<(), webp_animation::Error>)
    ensures
        anim_canvas(*final(encoder)) == anim_canvas(*old(encoder)),
        r is Ok <==> (timestamp_ms > last_timestamp(anim_frames_added(*old(encoder))) && rgba@.len() == 4
            * anim_canvas(*old(encoder)).0 * anim_canvas(*old(encoder)).1 && (anim_frames_added(
            *old(encoder),
        ).len() > 0 ==> timestamp_ms - last_timestamp(anim_frames_added(*old(encoder))) < MAX_FRAME_GAP_MS)),
        r is Ok ==> anim_frames_added(*final(encoder)) == anim_frames_added(*old(encoder)).push(
            (rgba@, timestamp_ms),
        ),
        r is Err ==> anim_frames_added(*final(encoder)) == anim_frames_added(*old(encoder)),
{
    encoder.add_frame(rgba, timestamp_ms)
}

/// Relies on `webp_animation::Encoder::finalize`: closes the last frame at
/// `timestamp_ms` and assembles the file. It refuses an encoder without
/// frames and an end before the last frame's start; libwebp refuses an end
/// `MAX_FRAME_GAP_MS` or more after it, and otherwise fails only where it
/// runs out of memory.
#[verifier::external_body]
fn anim_encoder_finalize(encoder: webp_animation::Encoder, timestamp_ms: i32) -> (r: Result<
    Vec<u8>,
    webp_animation::Error,
>)
    ensures
        r is Ok <==> (anim_frames_added(encoder).len() > 0 && timestamp_ms >= last_timestamp(
            anim_frames_added(encoder),
        ) && timestamp_ms - last_timestamp(anim_frames_added(encoder)) < MAX_FRAME_GAP_MS),
        r matches Ok(bytes) ==> bytes@ == animated_webp_of(
            anim_frames_added(encoder),
            anim_canvas(encoder).0,
            anim_canvas(encoder).1,
            timestamp_ms,
        ),
{
    encoder.finalize(timestamp_ms).map(|data| data.to_vec())
}

/// Relies on `image::codecs::png::PngEncoder::write_image` writing an 8-bit
/// RGBA image into a `Vec`; it panics where the buffer length differs from
/// the image's, and the png crate refuses only a zero side or a chunk over
/// `i32::MAX` bytes.
#[verifier::external_body]
fn png_encode(rgba: &[u8], width: u32, height: u32) -> (r: Result<Vec<u8>, image::ImageError>)
    requires
        rgba@.len() == 4 * width * height,
    ensures
        png_size_ok(width, height) ==> r is Ok,
        r matches Ok(bytes) ==> bytes@ == png_of(rgba@, width, height),
{
    let mut buf: Vec<u8> = Vec::new();
    image::codecs::png::PngEncoder::new(&mut buf)
        .write_image(rgba, width, height, image::ExtendedColorType::Rgba8)
        .map(|_| buf)
}

/// Whether a WebP image may have these dimensions.
pub open spec fn webp_dimensions_ok(width: u32, height: u32) -> bool {
    1 <= width <= WEBP_MAX_DIMENSION && 1 <= height <= WEBP_MAX_DIMENSION
}

/// Encodes one RGBA frame as a lossless WebP image.
pub fn encode_static_webp(rgba: &Vec<u8>, width: u32, height: u32) -> (r: Result<Vec<u8>, EncodeError>)
    requires
        rgba@.len() == 4 * width * height,
    ensures
        webp_dimensions_ok(width, height) ==> (r matches Ok(bytes) && bytes@ == webp_lossless_of(
            rgba@,
            width,
            height,
        )),
        !webp_dimensions_ok(width, height) ==> r == Err::<Vec<u8>, EncodeError>(EncodeError::BadDimensions),
{
    if width < 1 || width > WEBP_MAX_DIMENSION || height < 1 || height > WEBP_MAX_DIMENSION {
        return Err(EncodeError::BadDimensions);
    }
    Ok(webp_lossless(rgba.as_slice(), width, height))
}

/// Encodes frames as an animated WebP image: frame `i` is shown from
/// `i * frame_delay_ms` and the last one ends at
/// `frames.len() * frame_delay_ms`.
pub fn encode_animated_webp(
    frames: &Vec<Vec<u8>>,
    width: u32,
    height: u32,
    frame_delay_ms: i32,
) -> (r: Result<Vec<u8>, EncodeError>)
    requires
        0 <= frame_delay_ms,
        frames@.len() <= i32::MAX,
        frames@.len() * frame_delay_ms <= i32::MAX,
    ensures
        !webp_dimensions_ok(width, height) ==> r == Err::<Vec<u8>, EncodeError>(EncodeError::BadDimensions),
        webp_dimensions_ok(width, height) && frames@.len() >= 1 && 0 < frame_delay_ms < MAX_FRAME_GAP_MS
            && (forall|i: int|
            0 <= i < frames@.len() ==> #[trigger] frames@[i]@.len() == 4 * width * height) ==> (r matches Ok(
            b,
        ) && b@ == animated_webp_of(
            timed_frames(frames_view(frames@), frame_delay_ms),
            width,
            height,
            (frames@.len() * frame_delay_ms) as i32,
        )),
        r matches Ok(b) ==> b@ == animated_webp_of(
            timed_frames(frames_view(frames@), frame_delay_ms),
            width,
            height,
            (frames@.len() * frame_delay_ms) as i32,
        ),
{
    if width < 1 || width > WEBP_MAX_DIMENSION || height < 1 || height > WEBP_MAX_DIMENSION {
        return Err(EncodeError::BadDimensions);
    }
    let mut encoder = match anim_encoder_new(width, height) {
        Ok(e) => e,
        Err(_) => return Err(EncodeError::EncoderFailed),
    };
    let ghost all = timed_frames(frames_view(frames@), frame_delay_ms);
    let ghost good = 0 < frame_delay_ms < MAX_FRAME_GAP_MS && (forall|i: int|
        0 <= i < frames@.len() ==> #[trigger] frames@[i]@.len() == 4 * width * height);
    let mut i: usize = 0;
    while i < frames.len()
        invariant
            i <= frames@.len(),
            webp_dimensions_ok(width, height),
            0 <= frame_delay_ms,
            frames@.len() <= i32::MAX,
            frames@.len() * frame_delay_ms <= i32::MAX,
            all == timed_frames(frames_view(frames@), frame_delay_ms),
            good == (0 < frame_delay_ms < MAX_FRAME_GAP_MS && (forall|i: int|
                0 <= i < frames@.len() ==> #[trigger] frames@[i]@.len() == 4 * width * height)),
            anim_canvas(encoder) == (width, height),
            anim_frames_added(encoder) == all.subrange(0, i as int),
        decreases frames@.len() - i,
    {
        assert(i * frame_delay_ms <= frames@.len() * frame_delay_ms) by (nonlinear_arith)
            requires
                i <= frames@.len(),
                0 <= frame_delay_ms,
        ;
        let timestamp: i32 = (i as i32) * frame_delay_ms;
        proof {
            if i > 0 {
                assert(all.subrange(0, i as int).last() == all[i - 1]);
                assert((i - 1) * frame_delay_ms < i * frame_delay_ms || !good) by (nonlinear_arith)
                    requires
                        good ==> frame_delay_ms > 0,
                ;
                assert(i * frame_delay_ms - (i - 1) * frame_delay_ms == frame_delay_ms) by (nonlinear_arith);
                assert(0 <= (i - 1) * frame_delay_ms <= i * frame_delay_ms) by (nonlinear_arith)
                    requires
                        i >= 1,
                        frame_delay_ms >= 0,
                ;
                assert(all[i - 1].1 == (i - 1) * frame_delay_ms);
            }
        }
        match anim_encoder_add_frame(&mut encoder, frames[i].as_slice(), timestamp) {
            Ok(()) => {},
            Err(_) => {
                proof {
                    if good {
                        assert(frames@[i as int]@.len() == 4 * width * height);
                    }
                }
                return Err(EncodeError::EncoderFailed);
            },
        }
        assert(all.subrange(0, i as int + 1) =~= all.subrange(0, i as int).push((frames@[i as int]@, timestamp)));
        i = i + 1;
    }
    assert(all.subrange(0, frames@.len() as int) =~= all);
    let end: i32 = (frames.len() as i32) * frame_delay_ms;
    proof {
        if frames@.len() > 0 {
            assert(all.last() == all[frames@.len() - 1]);
            assert((frames@.len() - 1) * frame_delay_ms <= frames@.len() * frame_delay_ms) by (nonlinear_arith)
                requires
                    0 <= frame_delay_ms,
            ;
            assert(frames@.len() * frame_delay_ms - (frames@.len() - 1) * frame_delay_ms == frame_delay_ms)
                by (nonlinear_arith);
            assert(0 <= (frames@.len() - 1) * frame_delay_ms) by (nonlinear_arith)
                requires
                    frames@.len() >= 1,
                    frame_delay_ms >= 0,
            ;
            assert(all[frames@.len() - 1].1 == (frames@.len() - 1) * frame_delay_ms);
        }
    }
    match anim_encoder_finalize(encoder, end) {
        Ok(bytes) => Ok(bytes),
        Err(_) => Err(EncodeError::EncoderFailed),
    }
}

/// Encodes an RGBA image as PNG, as clipboard images travel.
pub fn encode_rgba_to_png(rgba: &Vec<u8>, width: u32, height: u32) -> (r: Result<Vec<u8>, EncodeError>)
    requires
        rgba@.len() == 4 * width * height,
    ensures
        png_size_ok(width, height) ==> r is Ok,
        r matches Ok(bytes) ==> bytes@ == png_of(rgba@, width, height),
{
    match png_encode(rgba.as_slice(), width, height) {
        Ok(bytes) => Ok(bytes),
        Err(_) => Err(EncodeError::EncoderFailed),
    }
}

} // verus!
