//! The decisions of the golden image test: what it does once started, what each
//! captured frame leads to, and how a captured frame is made opaque before it
//! is compared or saved.
use crate::window::ExitStatus;
use vstd::prelude::*;

verus! {

/// What the golden image test does: record a new reference screenshot, or
/// check the rendered frames against the recorded one.
#[derive(Clone, Copy, PartialEq, Eq, Structural, Debug)]
pub enum GoldenImageMode {
    Update,
    Check,
}

/// What the golden image test does once it starts.
#[derive(Clone, Copy, PartialEq, Eq, Structural, Debug)]
pub enum GoldenImagePlan {
    /// Wait for the picture to settle, then save the frame as the new
    /// reference screenshot and exit with success.
    RecordAfterWait,
    /// Compare the frames, captured at intervals, with the recorded
    /// screenshot until one decides the check.
    CompareFrames,
}

/// The largest perceptual distance at which two screenshots count as the same.
pub const GOLDEN_IMAGE_MAX_DISTANCE: u32 = 3;

/// What the test does in `mode`. A check needs a recorded screenshot
/// (`has_screenshot`); without one the test does not start at all.
pub fn golden_image_start(mode: GoldenImageMode, has_screenshot: bool) -> (r: GoldenImagePlan)
    requires
        mode == GoldenImageMode::Check ==> has_screenshot,
    ensures
        mode == GoldenImageMode::Update ==> r == GoldenImagePlan::RecordAfterWait,
        mode == GoldenImageMode::Check ==> r == GoldenImagePlan::CompareFrames,
{
    match mode {
        GoldenImageMode::Check => GoldenImagePlan::CompareFrames,
        GoldenImageMode::Update => GoldenImagePlan::RecordAfterWait,
    }
}

/// What one captured frame of a check leads to.
#[derive(Clone, Copy, PartialEq, Eq, Structural, Debug)]
pub enum GoldenCheckOutcome {
    /// The check ran out of time: the frame is saved for analysis and the
    /// process fails.
    TimedOut,
    /// The frame matches the recorded screenshot: the process succeeds.
    Identical,
    /// The frame differs: the check waits for the next frame.
    Differ,
}

/// The outcome of a frame, given whether the time is up and the frame's
/// perceptual distance to the recorded screenshot.
pub open spec fn check_outcome(timed_out: bool, distance: u32) -> GoldenCheckOutcome {
    if timed_out {
        GoldenCheckOutcome::TimedOut
    } else if distance <= GOLDEN_IMAGE_MAX_DISTANCE {
        GoldenCheckOutcome::Identical
    } else {
        GoldenCheckOutcome::Differ
    }
}

/// The outcome of a captured frame of a check, given whether the time is up
/// and the perceptual distance between the frame and the recorded
/// screenshot; the time is looked at first.
pub fn golden_check_step(timed_out: bool, distance: u32) -> (r: GoldenCheckOutcome)
    ensures
        r == check_outcome(timed_out, distance),
        timed_out ==> r == GoldenCheckOutcome::TimedOut,
        !timed_out && distance <= GOLDEN_IMAGE_MAX_DISTANCE ==> r == GoldenCheckOutcome::Identical,
        !timed_out && distance > GOLDEN_IMAGE_MAX_DISTANCE ==> r == GoldenCheckOutcome::Differ,
{
    if timed_out {
        GoldenCheckOutcome::TimedOut
    } else if distance <= GOLDEN_IMAGE_MAX_DISTANCE {
        GoldenCheckOutcome::Identical
    } else {
        GoldenCheckOutcome::Differ
    }
}

/// How a check over the captured frames `frames` ends, each frame given as
/// whether the time was up when it was captured and its perceptual distance
/// to the recorded screenshot: at the first frame whose outcome is not
/// `Differ`, with that outcome, which is the check's one exit; `None` where
/// every frame differs and the check goes on waiting.
pub fn golden_check_run(frames: &[(bool, u32)]) -> (r: Option<(usize, GoldenCheckOutcome)>)
    ensures
        match r {
            Some((i, o)) => {
                &&& i < frames@.len()
                &&& o == check_outcome(frames@[i as int].0, frames@[i as int].1)
                &&& o != GoldenCheckOutcome::Differ
                &&& forall|j: int| 0 <= j < i ==> check_outcome(#[trigger] frames@[j].0, frames@[j].1) == GoldenCheckOutcome::Differ
            },
            None => forall|j: int| 0 <= j < frames@.len() ==> check_outcome(#[trigger] frames@[j].0, frames@[j].1) == GoldenCheckOutcome::Differ,
        },
{
    let mut i: usize = 0;
    while i < frames.len()
        invariant
            i <= frames@.len(),
            forall|j: int| 0 <= j < i ==> check_outcome(#[trigger] frames@[j].0, frames@[j].1) == GoldenCheckOutcome::Differ,
        decreases frames@.len() - i,
    {
        let (timed_out, distance) = frames[i];
        let o = golden_check_step(timed_out, distance);
        match o {
            GoldenCheckOutcome::Differ => {},
            _ => {
                return Some((i, o));
            },
        }
        i = i + 1;
    }
    None
}

/// The status the process exits with after `outcome`, if it exits.
pub fn outcome_exit(outcome: GoldenCheckOutcome) -> (r: Option<ExitStatus>)
    ensures
        outcome == GoldenCheckOutcome::TimedOut ==> (r matches Some(s) && s.code() == 1),
        outcome == GoldenCheckOutcome::Identical ==> (r matches Some(s) && s.code() == 0),
        outcome == GoldenCheckOutcome::Differ ==> r is None,
{
    match outcome {
        GoldenCheckOutcome::TimedOut => Some(ExitStatus::failure()),
        GoldenCheckOutcome::Identical => Some(ExitStatus::success()),
        GoldenCheckOutcome::Differ => None,
    }
}

/// Makes every whole four-byte RGBA pixel of `pixels` opaque: its alpha byte
/// becomes 255 and its colour stays. Bytes after the last whole pixel stay
/// as they are.
pub fn make_opaque(pixels: &mut Vec<u8>)
    ensures
        final(pixels)@.len() == old(pixels)@.len(),
        forall|k: int| 0 <= k < 4 * (old(pixels)@.len() / 4) && k % 4 == 3 ==> #[trigger] final(pixels)@[k] == 255,
        forall|k: int| 0 <= k < old(pixels)@.len() && !(k < 4 * (old(pixels)@.len() / 4) && k % 4 == 3)
            ==> #[trigger] final(pixels)@[k] == old(pixels)@[k],
{
    let ghost start = pixels@;
    let n = pixels.len();
    let mut i: usize = 0;
    let ghost mut q: int = 0;
    while n - i >= 4
        invariant
            n == start.len(),
            pixels@.len() == n,
            i == 4 * q,
            i <= n,
            forall|k: int| 0 <= k < i && k % 4 == 3 ==> #[trigger] pixels@[k] == 255,
            forall|k: int| 0 <= k < n && !(k < i && k % 4 == 3) ==> #[trigger] pixels@[k] == start[k],
        decreases n - i,
    {
        pixels.set(i + 3, 255);
        i = i + 4;
        proof {
            q = q + 1;
        }
    }
    assert(q == n / 4);
}

} // verus!
