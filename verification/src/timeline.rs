//! Frame timing: how many video frames a stream yields, and where in the
//! stream each frame's analysis window starts.
//!
//! Frame `i` stands for the time `i / frame_rate`. Its window is left-aligned:
//! it starts at the sample frame that is playing at that time.

use crate::audio::AudioStream;
use vstd::prelude::*;

verus! {

/// The least number of parts of size `b` that cover `a`.
pub open spec fn ceil_div(a: nat, b: nat) -> nat
    recommends
        b > 0,
{
    ((a + b - 1) / (b as int)) as nat
}

/// The timing of one run: the length of the audio and the two rates.
#[derive(Clone, Copy, Debug, PartialEq, Eq)]
pub struct Timeline {
    /// Sample frames in the stream.
    pub sample_frames: u64,
    /// Sample frames per second.
    pub sample_rate: u32,
    /// Video frames per second.
    pub frame_rate: u32,
}

impl Timeline {
    /// Both rates are positive.
    pub open spec fn wf(&self) -> bool {
        self.sample_rate > 0 && self.frame_rate > 0
    }

    /// The number of video frames: the duration times the frame rate, rounded up.
    pub open spec fn total_frames(&self) -> nat {
        ceil_div(self.sample_frames as nat * self.frame_rate as nat, self.sample_rate as nat)
    }

    /// The sample frame at which the window of video frame `frame` starts.
    pub open spec fn window_start(&self, frame: nat) -> nat {
        (frame * self.sample_rate as nat) / (self.frame_rate as nat)
    }

    /// The timing of a stream, or `None` if one of the rates is zero.
    pub fn new(sample_frames: u64, sample_rate: u32, frame_rate: u32) -> (made: Option<Timeline>)
        ensures
            made is Some == (sample_rate > 0 && frame_rate > 0),
            made matches Some(t) ==> t.wf() && t.sample_frames == sample_frames && t.sample_rate
                == sample_rate && t.frame_rate == frame_rate,
    {
        if sample_rate == 0 || frame_rate == 0 {
            None
        } else {
            Some(Timeline { sample_frames, sample_rate, frame_rate })
        }
    }

    /// The timing of a decoded stream at a frame rate, or `None` if the frame
    /// rate is zero.
    pub fn for_stream<T: Copy>(stream: &AudioStream<T>, frame_rate: u32) -> (made: Option<Timeline>)
        requires
            stream.wf(),
        ensures
            made is Some == (frame_rate > 0),
            made matches Some(t) ==> t.wf() && t.sample_frames == stream.frames() && t.sample_rate
                == stream.sample_rate && t.frame_rate == frame_rate,
    {
        Timeline::new(stream.frame_count() as u64, stream.sample_rate, frame_rate)
    }

    /// The number of video frames to emit, or `None` if it does not fit in 64 bits.
    pub fn frame_count(&self) -> (count: Option<u64>)
        requires
            self.wf(),
        ensures
            match count {
                Some(n) => n == self.total_frames(),
                None => self.total_frames() > u64::MAX,
            },
    {
        assert(self.sample_frames * self.frame_rate <= 0xffff_ffff_ffff_ffff * 0xffff_ffff)
            by (nonlinear_arith);
        let product: u128 = (self.sample_frames as u128) * (self.frame_rate as u128);
        let count: u128 = (product + (self.sample_rate as u128 - 1)) / (self.sample_rate as u128);
        if count <= u64::MAX as u128 {
            Some(count as u64)
        } else {
            None
        }
    }

    /// The sample frame at which the window of video frame `frame` starts, or
    /// `None` if it does not fit in 64 bits.
    pub fn window_origin(&self, frame: u64) -> (origin: Option<u64>)
        requires
            self.wf(),
        ensures
            match origin {
                Some(n) => n == self.window_start(frame as nat),
                None => self.window_start(frame as nat) > u64::MAX,
            },
    {
        assert(frame * self.sample_rate <= 0xffff_ffff_ffff_ffff * 0xffff_ffff)
            by (nonlinear_arith);
        let origin: u128 = (frame as u128) * (self.sample_rate as u128) / (self.frame_rate as u128);
        if origin <= u64::MAX as u128 {
            Some(origin as u64)
        } else {
            None
        }
    }
}

/// The frame count is the duration times the frame rate, rounded up: the
/// frames cover the whole stream, and with one frame less they would not.
pub proof fn lemma_total_frames_is_ceiling(t: Timeline)
    requires
        t.wf(),
    ensures
        t.total_frames() * t.sample_rate >= t.sample_frames * t.frame_rate,
        t.total_frames() > 0 ==> (t.total_frames() - 1) * t.sample_rate < t.sample_frames
            * t.frame_rate,
        t.sample_frames == 0 <==> t.total_frames() == 0,
{
    let a: int = t.sample_frames as int * t.frame_rate as int;
    let b: int = t.sample_rate as int;
    assert(a >= 0) by (nonlinear_arith)
        requires
            a == t.sample_frames as int * t.frame_rate as int,
    ;
    lemma_ceiling(a, b);
    assert(t.sample_frames == 0 ==> a == 0);
    assert(t.sample_frames > 0 ==> a > 0) by (nonlinear_arith)
        requires
            a == t.sample_frames as int * t.frame_rate as int,
            t.frame_rate > 0,
    ;
}

proof fn lemma_ceiling(a: int, b: int)
    requires
        a >= 0,
        b > 0,
    ensures
        ((a + b - 1) / b) * b >= a,
        ((a + b - 1) / b - 1) * b < a,
        (a + b - 1) / b >= 0,
        a == 0 <==> (a + b - 1) / b == 0,
{
    let q = (a + b - 1) / b;
    let r = (a + b - 1) % b;
    vstd::arithmetic::div_mod::lemma_fundamental_div_mod(a + b - 1, b);
    vstd::arithmetic::div_mod::lemma_mod_bound(a + b - 1, b);
    assert(b * q == q * b) by (nonlinear_arith);
    assert((q - 1) * b == q * b - b) by (nonlinear_arith);
    assert(q >= 0) by (nonlinear_arith)
        requires
            q * b + r == a + b - 1,
            0 <= r < b,
            a >= 0,
            b > 0,
    ;
    assert(a == 0 ==> q == 0) by (nonlinear_arith)
        requires
            q * b + r == a + b - 1,
            0 <= r < b,
            b > 0,
            q >= 0,
    ;
    assert(q == 0 ==> a == 0) by (nonlinear_arith)
        requires
            q * b + r == a + b - 1,
            0 <= r < b,
            a >= 0,
            b > 0,
    ;
}

/// Every frame that is emitted starts inside the stream: the window of a
/// frame below the frame count begins before the last sample frame ends.
pub proof fn lemma_window_starts_inside(t: Timeline, frame: nat)
    requires
        t.wf(),
        frame < t.total_frames(),
    ensures
        t.window_start(frame) < t.sample_frames,
{
    lemma_total_frames_is_ceiling(t);
    let n: int = t.total_frames() as int;
    let sr: int = t.sample_rate as int;
    let fr: int = t.frame_rate as int;
    let len: int = t.sample_frames as int;
    assert(frame * sr <= (n - 1) * sr) by (nonlinear_arith)
        requires
            frame <= n - 1,
            sr > 0,
    ;
    assert(frame * sr < len * fr);
    assert((frame * sr) / fr < len) by (nonlinear_arith)
        requires
            frame * sr < len * fr,
            fr > 0,
            frame * sr >= 0,
    ;
}

/// Windows move forward with the frames: a later frame never starts earlier.
pub proof fn lemma_window_start_is_monotone(t: Timeline, earlier: nat, later: nat)
    requires
        t.wf(),
        earlier <= later,
    ensures
        t.window_start(earlier) <= t.window_start(later),
{
    let sr: int = t.sample_rate as int;
    let fr: int = t.frame_rate as int;
    assert(earlier * sr <= later * sr) by (nonlinear_arith)
        requires
            earlier <= later,
            sr > 0,
    ;
    vstd::arithmetic::div_mod::lemma_div_is_ordered(earlier * sr, later * sr, fr);
}

} // verus!
