//! The decoded audio stream: interleaved samples with their format.
//!
//! The stream never computes with a sample; it only stores, counts and hands
//! them out, so the sample type is left to the caller.

use vstd::prelude::*;

verus! {

/// Why samples were not taken into a stream.
#[derive(Clone, Copy, Debug, PartialEq, Eq)]
pub enum StreamError {
    /// A sample rate of zero was given.
    NoSampleRate,
    /// A channel count of zero was given.
    NoChannels,
    /// The samples do not make up whole frames: their number is not a
    /// multiple of the channel count.
    PartialFrame,
    /// The samples have another sample rate or channel count than the stream.
    FormatChanged,
}

/// What `message` says of each fault.
pub open spec fn stream_message(fault: StreamError) -> Seq<char> {
    match fault {
        StreamError::NoSampleRate => "the sample rate is zero"@,
        StreamError::NoChannels => "the signal has no channels"@,
        StreamError::PartialFrame => "a packet ends within a frame"@,
        StreamError::FormatChanged => "the signal changes its format"@,
    }
}

impl StreamError {
    /// A few words that say what is wrong with the samples.
    pub fn message(&self) -> (text: String)
        ensures
            text@ == stream_message(*self),
    {
        match self {
            StreamError::NoSampleRate => String::from_str("the sample rate is zero"),
            StreamError::NoChannels => String::from_str("the signal has no channels"),
            StreamError::PartialFrame => String::from_str("a packet ends within a frame"),
            StreamError::FormatChanged => String::from_str("the signal changes its format"),
        }
    }
}

/// Decoded audio: sample frames in order, each holding one sample per channel.
#[derive(Clone, Debug)]
pub struct AudioStream<T> {
    /// Sample frames per second.
    pub sample_rate: u32,
    /// Samples per frame.
    pub channels: u32,
    /// The samples, frame after frame.
    pub samples: Vec<T>,
}

impl<T: Copy> AudioStream<T> {
    /// The rates are positive and the samples make up whole frames.
    pub open spec fn wf(&self) -> bool {
        &&& self.sample_rate > 0
        &&& self.channels > 0
        &&& self.samples@.len() % (self.channels as nat) == 0
    }

    /// The number of sample frames.
    pub open spec fn frames(&self) -> nat {
        self.samples@.len() / (self.channels as nat)
    }

    /// The sample of one channel in one frame.
    pub open spec fn sample_at(&self, frame: int, channel: int) -> T {
        self.samples@[frame * self.channels + channel]
    }

    /// A window of `length` samples of one channel that starts at the frame
    /// `start`; positions past the end of the stream hold `silence`.
    pub open spec fn window_of(&self, channel: int, start: int, length: nat, silence: T) -> Seq<T> {
        Seq::new(
            length,
            |j: int|
                if start + j < self.frames() {
                    self.sample_at(start + j, channel)
                } else {
                    silence
                },
        )
    }

    /// An empty stream of the given format.
    pub fn new(sample_rate: u32, channels: u32) -> (made: Result<Self, StreamError>)
        ensures
            sample_rate == 0 ==> made == Err::<Self, StreamError>(StreamError::NoSampleRate),
            sample_rate != 0 && channels == 0 ==> made == Err::<Self, StreamError>(
                StreamError::NoChannels,
            ),
            sample_rate != 0 && channels != 0 ==> made is Ok && made->Ok_0.wf()
                && made->Ok_0.sample_rate == sample_rate && made->Ok_0.channels == channels
                && made->Ok_0.samples@ == Seq::<T>::empty(),
    {
        if sample_rate == 0 {
            Err(StreamError::NoSampleRate)
        } else if channels == 0 {
            Err(StreamError::NoChannels)
        } else {
            assert(0nat % (channels as nat) == 0) by (nonlinear_arith)
                requires
                    channels > 0,
            ;
            Ok(AudioStream { sample_rate, channels, samples: Vec::new() })
        }
    }

    /// The number of sample frames.
    pub fn frame_count(&self) -> (count: usize)
        requires
            self.wf(),
        ensures
            count == self.frames(),
    {
        self.samples.len() / (self.channels as usize)
    }

    /// Appends decoded samples, which must make up whole frames; otherwise
    /// the stream is left as it was.
    pub fn push_frames(&mut self, interleaved: &[T]) -> (done: Result<(), StreamError>)
        requires
            old(self).wf(),
        ensures
            final(self).wf(),
            final(self).sample_rate == old(self).sample_rate,
            final(self).channels == old(self).channels,
            interleaved@.len() % (old(self).channels as nat) == 0 ==> done == Ok::<
                (),
                StreamError,
            >(()) && final(self).samples@ == old(self).samples@ + interleaved@,
            interleaved@.len() % (old(self).channels as nat) != 0 ==> done == Err::<
                (),
                StreamError,
            >(StreamError::PartialFrame) && final(self).samples@ == old(self).samples@,
    {
        let channels: usize = self.channels as usize;
        if interleaved.len() % channels != 0 {
            return Err(StreamError::PartialFrame);
        }
        let mut i: usize = 0;
        while i < interleaved.len()
            invariant
                i <= interleaved@.len(),
                self.sample_rate == old(self).sample_rate,
                self.channels == old(self).channels,
                self.samples@ == old(self).samples@ + interleaved@.subrange(0, i as int),
            decreases interleaved.len() - i,
        {
            self.samples.push(interleaved[i]);
            i += 1;
            assert(self.samples@ =~= old(self).samples@ + interleaved@.subrange(0, i as int));
        }
        assert(interleaved@.subrange(0, i as int) =~= interleaved@);
        proof {
            lemma_whole_frames(
                old(self).samples@.len(),
                interleaved@.len(),
                self.channels as nat,
            );
        }
        Ok(())
    }

    /// Appends the samples of one decoded packet, which come with their own
    /// format. The format must be that of the stream, and the samples must
    /// make up whole frames; otherwise the stream is left as it was.
    pub fn push_packet(&mut self, sample_rate: u32, channels: u32, interleaved: &[T]) -> (done:
        Result<(), StreamError>)
        requires
            old(self).wf(),
        ensures
            final(self).wf(),
            final(self).sample_rate == old(self).sample_rate,
            final(self).channels == old(self).channels,
            done == packet_fault(*old(self), sample_rate, channels, interleaved@),
            done is Ok ==> final(self).samples@ == old(self).samples@ + interleaved@,
            done is Err ==> final(self).samples@ == old(self).samples@,
    {
        if sample_rate != self.sample_rate || channels != self.channels {
            return Err(StreamError::FormatChanged);
        }
        self.push_frames(interleaved)
    }

    /// Cuts a window of `length` samples of one channel, starting at the
    /// frame `start`, and pads it with `silence` past the end of the stream.
    pub fn window(&self, channel: u32, start: u64, length: usize, silence: T) -> (cut: Vec<T>)
        requires
            self.wf(),
            channel < self.channels,
        ensures
            cut@ == self.window_of(channel as int, start as int, length as nat, silence),
    {
        let frames: usize = self.frame_count();
        let channels: usize = self.channels as usize;
        let held: usize = self.samples.len();
        let mut cut: Vec<T> = Vec::new();
        let mut j: usize = 0;
        while j < length
            invariant
                self.wf(),
                channel < self.channels,
                frames == self.frames(),
                channels == self.channels,
                held == self.samples@.len(),
                j <= length,
                cut@ == self.window_of(channel as int, start as int, j as nat, silence),
            decreases length - j,
        {
            let inside: bool = start < frames as u64 && j < frames - (start as usize);
            if inside {
                let frame: usize = start as usize + j;
                proof {
                    lemma_sample_in_stream(
                        self.samples@.len(),
                        channels as nat,
                        frame as nat,
                        channel as nat,
                    );
                    assert(frame * channels + channel < self.samples@.len());
                }
                cut.push(self.samples[frame * channels + channel as usize]);
            } else {
                cut.push(silence);
            }
            j += 1;
            assert(cut@ =~= self.window_of(channel as int, start as int, j as nat, silence));
        }
        cut
    }
}

/// Whether a packet can be taken into a stream, and if not, why.
pub open spec fn packet_fault<T>(
    stream: AudioStream<T>,
    sample_rate: u32,
    channels: u32,
    interleaved: Seq<T>,
) -> Result<(), StreamError> {
    if sample_rate != stream.sample_rate || channels != stream.channels {
        Err(StreamError::FormatChanged)
    } else if interleaved.len() % (stream.channels as nat) != 0 {
        Err(StreamError::PartialFrame)
    } else {
        Ok(())
    }
}

proof fn lemma_whole_frames(held: nat, added: nat, channels: nat)
    requires
        channels > 0,
        held % channels == 0,
        added % channels == 0,
    ensures
        (held + added) % channels == 0,
{
    vstd::arithmetic::div_mod::lemma_mod_adds(held as int, added as int, channels as int);
}

proof fn lemma_sample_in_stream(len: nat, channels: nat, frame: nat, channel: nat)
    requires
        channels > 0,
        len % channels == 0,
        frame < len / channels,
        channel < channels,
    ensures
        frame * channels + channel < len,
{
    vstd::arithmetic::div_mod::lemma_fundamental_div_mod(len as int, channels as int);
    assert(frame * channels + channel < (len / channels) * channels) by (nonlinear_arith)
        requires
            frame < len / channels,
            channel < channels,
    ;
    assert(channels * (len / channels) == (len / channels) * channels) by (nonlinear_arith);
}

} // verus!
