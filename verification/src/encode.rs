//! Image encoding at the library's edge: thumbnails, PNG payloads and the
//! animated loop. The encoders come from the image crate; each result is a
//! pure function of its inputs and is given a name the callers' contracts
//! use exactly.

use vstd::prelude::*;
use crate::delivery::RenderFrame;
use crate::delivery::RenderStatus;

verus! {

/// Longest side of the preview thumbnails sent to consumers.
pub const THUMB_MAX_PX: u32 = 50;

/// The pixels that `imageops::thumbnail` computes when resampling an RGB
/// image to `max` x `max`; a function of the input pixels, the input
/// dimensions and the target bound.
pub uninterp spec fn thumb_of(raw: Seq<u8>, width: int, height: int, max: int) -> Seq<u8>;

/// The PNG encoding of an RGB image; a function of the pixels and
/// dimensions alone.
pub uninterp spec fn png_of(raw: Seq<u8>, width: int, height: int) -> Seq<u8>;

/// The looping GIF encoding of a frame sequence; a function of the frames
/// and dimensions alone.
pub uninterp spec fn gif_of(frames: Seq<Seq<u8>>, width: int, height: int) -> Seq<u8>;

/// Relies on image::imageops::thumbnail: resample a nonempty RGB image to
/// exactly `max` x `max` pixels, deterministically from the input pixels,
/// the input dimensions and the bound.
#[verifier::external_body]
fn thumbnail_rgb(raw: &Vec<u8>, width: u32, height: u32, max: u32) -> (r: (Vec<u8>, u32, u32))
    requires
        1 <= width <= 32768,
        1 <= height <= 32768,
        raw@.len() == 3 * width * height,
        1 <= max <= 256,
    ensures
        r.0@ == thumb_of(raw@, width as int, height as int, max as int),
        r.1 == max,
        r.2 == max,
        r.0@.len() == 3 * max * max,
{
    let img = image::RgbImage::from_raw(width, height, raw.clone()).unwrap();
    let thumb = image::imageops::thumbnail(&img, max, max);
    let (tw, th) = (thumb.width(), thumb.height());
    (thumb.into_raw(), tw, th)
}

/// Relies on image::DynamicImage::write_to with the PNG format: encode an
/// in-memory RGB image, deterministically from the input pixels; writing
/// into a memory buffer cannot fail.
#[verifier::external_body]
fn png_from_rgb(raw: Vec<u8>, width: u32, height: u32) -> (r: Vec<u8>)
    requires
        1 <= width <= 32768,
        1 <= height <= 32768,
        raw@.len() == 3 * width * height,
    ensures
        r@ == png_of(raw@, width as int, height as int),
{
    let img = image::DynamicImage::ImageRgb8(
        image::RgbImage::from_raw(width, height, raw).unwrap(),
    );
    let mut png = std::io::Cursor::new(vec![]);
    img.write_to(&mut png, image::ImageOutputFormat::Png).unwrap();
    png.into_inner()
}

/// Relies on image::codecs::gif::GifEncoder (new, set_repeat, encode): an
/// infinitely looping GIF of the given RGB frames, deterministically from
/// the frames; writing into a memory buffer cannot fail.
#[verifier::external_body]
fn gif_from_frames(frames: &Vec<Vec<u8>>, width: u32, height: u32) -> (r: Vec<u8>)
    requires
        1 <= width <= 0xffff,
        1 <= height <= 0xffff,
        forall|i: int| 0 <= i < frames@.len() ==> (#[trigger] frames@[i])@.len() == 3 * width
            * height,
    ensures
        r@ == gif_of(frames.deep_view(), width as int, height as int),
{
    let mut gif = vec![];
    let mut encoder = image::codecs::gif::GifEncoder::new(&mut gif);
    encoder.set_repeat(image::codecs::gif::Repeat::Infinite).unwrap();
    for frame in frames {
        encoder.encode(frame, width, height, image::ColorType::Rgb8).unwrap();
    }
    drop(encoder);
    gif
}

/// Build the completed-frame record for a raw RGB frame: keep the raw
/// pixels and encode a PNG payload of the `THUMB_MAX_PX`-square thumbnail
/// for consumers.
pub fn make_frame(raw: Vec<u8>, width: u32, height: u32) -> (r: RenderFrame)
    requires
        1 <= width <= 32768,
        1 <= height <= 32768,
        raw@.len() == 3 * width * height,
    ensures
        r.img@ == raw@,
        r.png@ == png_of(
            thumb_of(raw@, width as int, height as int, THUMB_MAX_PX as int),
            THUMB_MAX_PX as int,
            THUMB_MAX_PX as int,
        ),
{
    let (tp, tw, th) = thumbnail_rgb(&raw, width, height, THUMB_MAX_PX);
    let png = png_from_rgb(tp, tw, th);
    RenderFrame { img: raw, png }
}

/// Some completed frame carries index `k`.
pub open spec fn has_frame(status: RenderStatus, k: int) -> bool {
    exists|i: int|
        0 <= i < status.frames@.len() && (#[trigger] status.frames@[i]).0 == k
}

/// Frame indices are exactly `0 .. total`, each exactly once, and every
/// raw frame has the job's dimensions.
pub open spec fn frames_encodable(status: RenderStatus) -> bool {
    let total = status.job.total_frames as int;
    &&& status.frames@.len() == total
    &&& forall|i: int, j: int|
        0 <= i < j < total ==> (#[trigger] status.frames@[i]).0 != (
        #[trigger] status.frames@[j]).0
    &&& forall|k: int| 0 <= k < total ==> #[trigger] has_frame(status, k)
    &&& forall|i: int|
        0 <= i < total ==> (#[trigger] status.frames@[i]).1.img@.len() == 3 * status.job.width
            * status.job.height
}

/// The raw pixels of the frame with index `k`.
pub open spec fn frame_raw_at(status: RenderStatus, k: int) -> Seq<u8> {
    let i = choose|i: int|
        0 <= i < status.frames@.len() && (#[trigger] status.frames@[i]).0 == k;
    status.frames@[i].1.img@
}

/// The frames' raw pixels arranged in frame-index order.
pub open spec fn ordered_raws(status: RenderStatus) -> Seq<Seq<u8>> {
    Seq::new(status.job.total_frames as nat, |k: int| frame_raw_at(status, k))
}

/// Does the status hold exactly the frames `0 .. total`, once each, at the
/// job's dimensions?
pub fn check_frames_encodable(status: &RenderStatus) -> (r: bool)
    ensures
        r == frames_encodable(*status),
{
    let total = status.job.total_frames;
    if status.frames.len() != total {
        return false;
    }
    proof {
        assert((3 * (status.job.width as int)) * (status.job.height as int) <= 12884901888)
            by (nonlinear_arith)
            requires
                status.job.width <= 0xffff,
                status.job.height <= 0xffff,
        {}
    }
    let expected: u64 = 3 * (status.job.width as u64) * (status.job.height as u64);
    let mut k: usize = 0;
    while k < total
        invariant
            k <= total,
            total == status.job.total_frames,
            status.frames@.len() == total,
            expected == 3 * status.job.width * status.job.height,
            forall|a: int|
                0 <= a < k ==> (#[trigger] status.frames@[a]).1.img@.len() == 3 * status.job.width
                    * status.job.height,
            forall|a: int, b: int|
                0 <= a < k && 0 <= b < total && a != b ==> (#[trigger] status.frames@[a]).0 != (
                #[trigger] status.frames@[b]).0,
            forall|v: int| 0 <= v < k ==> #[trigger] has_frame(*status, v),
        decreases total - k,
    {
        // Frame k's payload has the job's size.
        if (status.frames[k].1.img.len() as u64) != expected {
            return false;
        }
        // Its index is not repeated elsewhere.
        let idx_k = status.frames[k].0;
        let mut j: usize = 0;
        while j < total
            invariant
                j <= total,
                k < total,
                total == status.frames@.len(),
                idx_k == status.frames@[k as int].0,
                forall|b: int|
                    0 <= b < j && b != k ==> (#[trigger] status.frames@[b]).0 != idx_k,
            decreases total - j,
        {
            if j != k && status.frames[j].0 == idx_k {
                proof {
                    if frames_encodable(*status) {
                        if (j as int) < (k as int) {
                            assert((status.frames@[j as int]).0 != (status.frames@[k as int]).0);
                        } else {
                            assert((status.frames@[k as int]).0 != (status.frames@[j as int]).0);
                        }
                    }
                }
                return false;
            }
            j = j + 1;
        }
        // The index k itself occurs somewhere.
        let mut found = false;
        let mut i: usize = 0;
        while i < total
            invariant
                i <= total,
                total == status.frames@.len(),
                found ==> has_frame(*status, k as int),
                !found ==> forall|t: int|
                    0 <= t < i ==> (#[trigger] status.frames@[t]).0 != k,
            decreases total - i,
        {
            if status.frames[i].0 == k {
                found = true;
            }
            i = i + 1;
        }
        if !found {
            proof {
                if frames_encodable(*status) {
                    assert(has_frame(*status, k as int));
                    let t = choose|t: int|
                        0 <= t < status.frames@.len() && (#[trigger] status.frames@[t]).0
                            == k as int;
                    assert(false);
                }
            }
            return false;
        }
        k = k + 1;
    }
    proof {
        assert forall|a: int, b: int|
            0 <= a < b < total implies (#[trigger] status.frames@[a]).0 != (
        #[trigger] status.frames@[b]).0 by {}
    }
    true
}

/// Build the infinitely looping animation from the completed frames,
/// arranged in frame-index order whatever order they completed in.
pub fn render_gif(status: &RenderStatus) -> (gif: Vec<u8>)
    requires
        frames_encodable(*status),
        1 <= status.job.width,
        1 <= status.job.height,
    ensures
        gif@ == gif_of(
            ordered_raws(*status),
            status.job.width as int,
            status.job.height as int,
        ),
{
    let total = status.job.total_frames;
    let mut raws: Vec<Vec<u8>> = Vec::new();
    let mut k: usize = 0;
    while k < total
        invariant
            k <= total,
            frames_encodable(*status),
            total == status.job.total_frames,
            raws@.len() == k,
            forall|t: int| 0 <= t < k ==> (#[trigger] raws@[t])@ == frame_raw_at(*status, t),
            forall|t: int|
                0 <= t < k ==> (#[trigger] raws@[t])@.len() == 3 * status.job.width
                    * status.job.height,
        decreases total - k,
    {
        // Find the frame carrying index k.
        proof {
            assert(has_frame(*status, k as int));
        }
        let ghost wit = choose|i: int|
            0 <= i < status.frames@.len() && (#[trigger] status.frames@[i]).0 == k;
        let mut i: usize = 0;
        while i < total && status.frames[i].0 != k
            invariant
                i <= total,
                k < total,
                frames_encodable(*status),
                total == status.job.total_frames,
                0 <= wit < total,
                status.frames@[wit].0 == k,
                i <= wit,
                forall|t: int| 0 <= t < i ==> (#[trigger] status.frames@[t]).0 != k,
            decreases total - i,
        {
            i = i + 1;
        }
        proof {
            assert(i as int == wit);
        }
        raws.push(crate::delivery::copy_bytes(&status.frames[i].1.img));
        k = k + 1;
    }
    proof {
        assert forall|t: int|
            0 <= t < total implies raws.deep_view()[t] == ordered_raws(*status)[t] by {
            assert(raws@[t]@ == frame_raw_at(*status, t));
            assert(raws@[t].deep_view() =~= raws@[t]@);
        }
        assert(raws.deep_view() =~= ordered_raws(*status));
    }
    gif_from_frames(&raws, status.job.width as u32, status.job.height as u32)
}

} // verus!
