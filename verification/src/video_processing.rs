//! The render stage of the video pipeline: converting a whole sequence of raw
//! frames to text frames, in input order, sequentially or across a worker pool.

use vstd::prelude::*;
use rayon::iter::IntoParallelRefIterator;
use rayon::iter::ParallelIterator;
use crate::config::{Charset, Resolution, spec_charset};
use crate::frame::{GrayFrame, RgbFrame};
use crate::image_processing::{
    process_image_grayscale,
    process_image_rgb,
    spec_process_gray,
    spec_process_rgb,
};

verus! {

/// What one run's grayscale frame sequence renders to, frame by frame.
pub open spec fn spec_gray_outputs(frames: Seq<GrayFrame>, r: Resolution, ramp: Seq<char>) -> Seq<
    Seq<char>,
> {
    Seq::new(
        frames.len(),
        |i: int| spec_process_gray(frames[i].width, frames[i].height, frames[i].data@, r, ramp),
    )
}

/// What one run's RGB frame sequence renders to, frame by frame.
pub open spec fn spec_rgb_outputs(frames: Seq<RgbFrame>, r: Resolution, ramp: Seq<char>) -> Seq<
    Seq<char>,
> {
    Seq::new(
        frames.len(),
        |i: int| spec_process_rgb(frames[i].width, frames[i].height, frames[i].data@, r, ramp),
    )
}

/// Renders every grayscale frame in order on the calling thread.
pub fn process_frames_grayscale(
    frames: &Vec<GrayFrame>,
    resolution: Resolution,
    charset: &Charset,
) -> (out: Vec<String>)
    requires
        forall|i: int| 0 <= i < frames@.len() ==> (#[trigger] frames@[i]).wf(),
        resolution.wf(),
    ensures
        out@.len() == frames@.len(),
        forall|i: int|
            0 <= i < frames@.len() ==> (#[trigger] out@[i])@ == spec_gray_outputs(
                frames@,
                resolution,
                spec_charset(*charset),
            )[i],
{
    let mut out: Vec<String> = Vec::new();
    let mut i: usize = 0;
    while i < frames.len()
        invariant
            i <= frames@.len(),
            out@.len() == i,
            resolution.wf(),
            forall|j: int| 0 <= j < frames@.len() ==> (#[trigger] frames@[j]).wf(),
            forall|j: int|
                0 <= j < i ==> (#[trigger] out@[j])@ == spec_gray_outputs(
                    frames@,
                    resolution,
                    spec_charset(*charset),
                )[j],
        decreases frames@.len() - i,
    {
        let text = process_image_grayscale(&frames[i], resolution, charset);
        out.push(text);
        i = i + 1;
    }
    out
}

/// Renders every RGB frame in order on the calling thread.
pub fn process_frames_rgb(frames: &Vec<RgbFrame>, resolution: Resolution, charset: &Charset) -> (out:
    Vec<String>)
    requires
        forall|i: int| 0 <= i < frames@.len() ==> (#[trigger] frames@[i]).wf(),
        resolution.wf(),
    ensures
        out@.len() == frames@.len(),
        forall|i: int|
            0 <= i < frames@.len() ==> (#[trigger] out@[i])@ == spec_rgb_outputs(
                frames@,
                resolution,
                spec_charset(*charset),
            )[i],
{
    let mut out: Vec<String> = Vec::new();
    let mut i: usize = 0;
    while i < frames.len()
        invariant
            i <= frames@.len(),
            out@.len() == i,
            resolution.wf(),
            forall|j: int| 0 <= j < frames@.len() ==> (#[trigger] frames@[j]).wf(),
            forall|j: int|
                0 <= j < i ==> (#[trigger] out@[j])@ == spec_rgb_outputs(
                    frames@,
                    resolution,
                    spec_charset(*charset),
                )[j],
        decreases frames@.len() - i,
    {
        let text = process_image_rgb(&frames[i], resolution, charset);
        out.push(text);
        i = i + 1;
    }
    out
}

/// Relies on rayon's par_iter, map and collect: collecting an indexed
/// parallel iterator into a Vec keeps the input order, so element `i` of the
/// result is the renderer applied to frame `i`, whichever worker ran it.
#[verifier::external_body]
fn par_map_grayscale(frames: &Vec<GrayFrame>, resolution: Resolution, charset: Charset) -> (out:
    Vec<String>)
    requires
        forall|i: int| 0 <= i < frames@.len() ==> (#[trigger] frames@[i]).wf(),
        resolution.wf(),
    ensures
        out@.len() == frames@.len(),
        forall|i: int|
            0 <= i < frames@.len() ==> (#[trigger] out@[i])@ == spec_gray_outputs(
                frames@,
                resolution,
                spec_charset(charset),
            )[i],
{
    frames.par_iter().map(|f| process_image_grayscale(f, resolution, &charset)).collect()
}

/// Relies on rayon's par_iter, map and collect: collecting an indexed
/// parallel iterator into a Vec keeps the input order, so element `i` of the
/// result is the renderer applied to frame `i`, whichever worker ran it.
#[verifier::external_body]
fn par_map_rgb(frames: &Vec<RgbFrame>, resolution: Resolution, charset: Charset) -> (out: Vec<
    String,
>)
    requires
        forall|i: int| 0 <= i < frames@.len() ==> (#[trigger] frames@[i]).wf(),
        resolution.wf(),
    ensures
        out@.len() == frames@.len(),
        forall|i: int|
            0 <= i < frames@.len() ==> (#[trigger] out@[i])@ == spec_rgb_outputs(
                frames@,
                resolution,
                spec_charset(charset),
            )[i],
{
    frames.par_iter().map(|f| process_image_rgb(f, resolution, &charset)).collect()
}

/// Renders every grayscale frame across the worker pool; the output order is
/// the input order whatever order the workers finish in.
pub fn process_frames_grayscale_parallel(
    frames: &Vec<GrayFrame>,
    resolution: Resolution,
    charset: &Charset,
) -> (out: Vec<String>)
    requires
        forall|i: int| 0 <= i < frames@.len() ==> (#[trigger] frames@[i]).wf(),
        resolution.wf(),
    ensures
        out@.len() == frames@.len(),
        forall|i: int|
            0 <= i < frames@.len() ==> (#[trigger] out@[i])@ == spec_gray_outputs(
                frames@,
                resolution,
                spec_charset(*charset),
            )[i],
{
    par_map_grayscale(frames, resolution, *charset)
}

/// Renders every RGB frame across the worker pool; the output order is the
/// input order whatever order the workers finish in.
pub fn process_frames_rgb_parallel(
    frames: &Vec<RgbFrame>,
    resolution: Resolution,
    charset: &Charset,
) -> (out: Vec<String>)
    requires
        forall|i: int| 0 <= i < frames@.len() ==> (#[trigger] frames@[i]).wf(),
        resolution.wf(),
    ensures
        out@.len() == frames@.len(),
        forall|i: int|
            0 <= i < frames@.len() ==> (#[trigger] out@[i])@ == spec_rgb_outputs(
                frames@,
                resolution,
                spec_charset(*charset),
            )[i],
{
    par_map_rgb(frames, resolution, *charset)
}

/// Any two renderings of one grayscale frame sequence are the same text
/// sequence: the output is pinned by the input order alone, so one worker or
/// many produce identical frame sequences.
pub proof fn lemma_render_order_independent(
    frames: Seq<GrayFrame>,
    r: Resolution,
    ramp: Seq<char>,
    a: Seq<Seq<char>>,
    b: Seq<Seq<char>>,
)
    requires
        a.len() == frames.len(),
        b.len() == frames.len(),
        forall|i: int| 0 <= i < frames.len() ==> #[trigger] a[i] == spec_gray_outputs(frames, r, ramp)[i],
        forall|i: int| 0 <= i < frames.len() ==> #[trigger] b[i] == spec_gray_outputs(frames, r, ramp)[i],
    ensures
        a == b,
{
    assert(a =~= b);
}

/// The RGB counterpart: two renderings of one RGB frame sequence are the
/// same text sequence, however the work was scheduled.
pub proof fn lemma_render_order_independent_rgb(
    frames: Seq<RgbFrame>,
    r: Resolution,
    ramp: Seq<char>,
    a: Seq<Seq<char>>,
    b: Seq<Seq<char>>,
)
    requires
        a.len() == frames.len(),
        b.len() == frames.len(),
        forall|i: int| 0 <= i < frames.len() ==> #[trigger] a[i] == spec_rgb_outputs(frames, r, ramp)[i],
        forall|i: int| 0 <= i < frames.len() ==> #[trigger] b[i] == spec_rgb_outputs(frames, r, ramp)[i],
    ensures
        a == b,
{
    assert(a =~= b);
}

} // verus!
