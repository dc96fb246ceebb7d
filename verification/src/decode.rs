//! Decisions of the sample source: which track to decode, what to do after
//! each packet is read or decoded, and how a failure is reported.
//!
//! The demuxer and the codec are driven by the caller. After every call into
//! them the caller reports the outcome as an [`Event`]; the [`DecodeSession`]
//! answers with the next [`Action`].

use crate::audio::{stream_message, StreamError};
use vstd::prelude::*;

verus! {

/// What the demuxer reports of one track of the container.
#[derive(Clone, Copy, Debug, PartialEq, Eq)]
pub struct TrackInfo {
    /// The identifier that packets of this track carry.
    pub id: u32,
    /// Whether the track names a codec at all (its codec is not the null codec).
    pub decodable: bool,
}

/// `i` is the position of the first decodable track.
pub open spec fn is_first_decodable(tracks: Seq<TrackInfo>, i: int) -> bool {
    &&& 0 <= i < tracks.len()
    &&& tracks[i].decodable
    &&& forall|j: int| 0 <= j < i ==> !(#[trigger] tracks[j]).decodable
}

/// No track of the container can be decoded.
pub open spec fn none_decodable(tracks: Seq<TrackInfo>) -> bool {
    forall|j: int| 0 <= j < tracks.len() ==> !(#[trigger] tracks[j]).decodable
}

/// Picks the track to decode: the first one, in container order, that names a codec.
pub fn select_track(tracks: &Vec<TrackInfo>) -> (found: Option<usize>)
    ensures
        match found {
            Some(i) => is_first_decodable(tracks@, i as int),
            None => none_decodable(tracks@),
        },
{
    let mut i: usize = 0;
    while i < tracks.len()
        invariant
            i <= tracks.len(),
            forall|j: int| 0 <= j < i ==> !(#[trigger] tracks@[j]).decodable,
        decreases tracks.len() - i,
    {
        if tracks[i].decodable {
            return Some(i);
        }
        i += 1;
    }
    None
}

/// Why decoding stopped without a complete stream.
#[derive(Clone, Copy, Debug, PartialEq, Eq)]
pub enum Failure {
    /// The demuxer could not deliver the next packet.
    PacketRead,
    /// The codec found the packet's data malformed.
    Malformed,
    /// The codec failed on the packet in any other way.
    Decoder,
}

/// Where a decoding session stands.
#[derive(Clone, Copy, Debug, PartialEq, Eq)]
pub enum Phase {
    /// The next packet has to be read.
    AwaitingPacket,
    /// A packet of the selected track was handed to the codec.
    AwaitingSamples,
    /// The stream was read to its end.
    Complete,
    /// Decoding was given up.
    Aborted(Failure),
}

/// What the caller observed after doing what the session asked for.
#[derive(Clone, Copy, Debug, PartialEq, Eq)]
pub enum Event {
    /// The demuxer delivered a packet of the given track.
    PacketRead { track: u32 },
    /// The demuxer reached the end of the stream.
    EndOfStream,
    /// The demuxer failed in any other way.
    ReadFailed,
    /// The codec decoded the packet into samples.
    Decoded,
    /// The codec rejected the packet's data as malformed.
    Malformed,
    /// The codec failed on the packet in any other way.
    DecodeFailed,
}

/// What the caller has to do next.
#[derive(Clone, Copy, Debug, PartialEq, Eq)]
pub enum Action {
    /// Read the next packet from the demuxer.
    ReadPacket,
    /// Hand the packet just read to the codec.
    DecodePacket,
    /// Append the samples just decoded to the stream, then read the next packet.
    KeepSamples,
    /// Stop: the samples kept so far are the whole stream.
    Finish,
    /// Stop and report the failure; the samples kept so far are not a stream.
    Abort(Failure),
}

/// The action that a phase is waiting for when no event has moved it on.
pub open spec fn pending(phase: Phase) -> Action {
    match phase {
        Phase::AwaitingPacket => Action::ReadPacket,
        Phase::AwaitingSamples => Action::DecodePacket,
        Phase::Complete => Action::Finish,
        Phase::Aborted(failure) => Action::Abort(failure),
    }
}

/// The transition relation of a decoding session for the track `wanted`.
///
/// Packets of other tracks are skipped. Only the end of the stream
/// completes the session. A read that fails and a packet that the codec
/// cannot decode, for whatever reason, abort it: what was kept until then is
/// no stream. An event that the phase does not wait for changes nothing.
pub open spec fn transition(wanted: u32, phase: Phase, event: Event) -> (Phase, Action) {
    match (phase, event) {
        (Phase::AwaitingPacket, Event::PacketRead { track }) => if track == wanted {
            (Phase::AwaitingSamples, Action::DecodePacket)
        } else {
            (Phase::AwaitingPacket, Action::ReadPacket)
        },
        (Phase::AwaitingPacket, Event::EndOfStream) => (Phase::Complete, Action::Finish),
        (Phase::AwaitingPacket, Event::ReadFailed) => (
            Phase::Aborted(Failure::PacketRead),
            Action::Abort(Failure::PacketRead),
        ),
        (Phase::AwaitingSamples, Event::Decoded) => (Phase::AwaitingPacket, Action::KeepSamples),
        (Phase::AwaitingSamples, Event::Malformed) => (
            Phase::Aborted(Failure::Malformed),
            Action::Abort(Failure::Malformed),
        ),
        (Phase::AwaitingSamples, Event::DecodeFailed) => (
            Phase::Aborted(Failure::Decoder),
            Action::Abort(Failure::Decoder),
        ),
        (phase, _) => (phase, pending(phase)),
    }
}

/// The phase reached from `phase` after all of `events`, in order.
pub open spec fn phase_after(wanted: u32, phase: Phase, events: Seq<Event>) -> Phase
    decreases events.len(),
{
    if events.len() == 0 {
        phase
    } else {
        phase_after(wanted, transition(wanted, phase, events[0]).0, events.drop_first())
    }
}

/// How many times the caller was told to keep samples while `events` came in.
pub open spec fn kept_after(wanted: u32, phase: Phase, events: Seq<Event>) -> nat
    decreases events.len(),
{
    if events.len() == 0 {
        0
    } else {
        let (next, action) = transition(wanted, phase, events[0]);
        let here: nat = if action == Action::KeepSamples { 1 } else { 0 };
        here + kept_after(wanted, next, events.drop_first())
    }
}

/// The decoding loop's state: the selected track and the current phase.
#[derive(Clone, Copy, Debug, PartialEq, Eq)]
pub struct DecodeSession {
    /// Identifier of the selected track.
    pub wanted: u32,
    /// Where the session stands.
    pub phase: Phase,
}

impl DecodeSession {
    /// Starts a session for the track `wanted`; the first action is to read a packet.
    pub fn new(wanted: u32) -> (session: DecodeSession)
        ensures
            session.wanted == wanted,
            session.phase == Phase::AwaitingPacket,
    {
        DecodeSession { wanted, phase: Phase::AwaitingPacket }
    }

    /// Whether the session has ended, with or without a stream.
    pub fn is_over(&self) -> (over: bool)
        ensures
            over == (self.phase is Complete || self.phase is Aborted),
    {
        match self.phase {
            Phase::Complete => true,
            Phase::Aborted(_) => true,
            _ => false,
        }
    }

    /// Takes in one event and answers with the next action.
    pub fn step(&mut self, event: Event) -> (action: Action)
        ensures
            final(self).wanted == old(self).wanted,
            (final(self).phase, action) == transition(old(self).wanted, old(self).phase, event),
    {
        let (next, action) = match (self.phase, event) {
            (Phase::AwaitingPacket, Event::PacketRead { track }) => {
                if track == self.wanted {
                    (Phase::AwaitingSamples, Action::DecodePacket)
                } else {
                    (Phase::AwaitingPacket, Action::ReadPacket)
                }
            },
            (Phase::AwaitingPacket, Event::EndOfStream) => (Phase::Complete, Action::Finish),
            (Phase::AwaitingPacket, Event::ReadFailed) => (
                Phase::Aborted(Failure::PacketRead),
                Action::Abort(Failure::PacketRead),
            ),
            (Phase::AwaitingSamples, Event::Decoded) => (
                Phase::AwaitingPacket,
                Action::KeepSamples,
            ),
            (Phase::AwaitingSamples, Event::Malformed) => (
                Phase::Aborted(Failure::Malformed),
                Action::Abort(Failure::Malformed),
            ),
            (Phase::AwaitingSamples, Event::DecodeFailed) => (
                Phase::Aborted(Failure::Decoder),
                Action::Abort(Failure::Decoder),
            ),
            (Phase::AwaitingPacket, _) => (Phase::AwaitingPacket, Action::ReadPacket),
            (Phase::AwaitingSamples, _) => (Phase::AwaitingSamples, Action::DecodePacket),
            (Phase::Complete, _) => (Phase::Complete, Action::Finish),
            (Phase::Aborted(failure), _) => (Phase::Aborted(failure), Action::Abort(failure)),
        };
        self.phase = next;
        action
    }
}

/// A session that is over stays as it is, whatever is reported to it, and asks
/// for no more samples to be kept.
pub proof fn lemma_over_is_final(wanted: u32, phase: Phase, events: Seq<Event>)
    requires
        phase is Complete || phase is Aborted,
    ensures
        phase_after(wanted, phase, events) == phase,
        kept_after(wanted, phase, events) == 0,
    decreases events.len(),
{
    if events.len() > 0 {
        lemma_over_is_final(wanted, phase, events.drop_first());
    }
}

/// Whether one of the events reports the end of the stream.
pub open spec fn reaches_end(events: Seq<Event>) -> bool {
    exists|i: int| 0 <= i < events.len() && #[trigger] events[i] == Event::EndOfStream
}

/// Only the end of the stream completes a session: a session that is
/// complete after some events was so before, or the demuxer reported the end
/// of the stream. No failure of the demuxer or the codec leaves a stream.
pub proof fn lemma_completes_only_at_end(wanted: u32, phase: Phase, events: Seq<Event>)
    requires
        phase_after(wanted, phase, events) is Complete,
    ensures
        phase is Complete || reaches_end(events),
    decreases events.len(),
{
    if events.len() > 0 && !(phase is Complete) {
        let next = transition(wanted, phase, events[0]).0;
        let rest = events.drop_first();
        lemma_completes_only_at_end(wanted, next, rest);
        if next is Complete {
            assert(events[0] == Event::EndOfStream);
        } else {
            let i = choose|i: int| 0 <= i < rest.len() && #[trigger] rest[i] == Event::EndOfStream;
            assert(events[i + 1] == rest[i]);
        }
    }
}

/// A packet that cannot be decoded ends the session in failure, whatever
/// made the codec fail and whatever is reported afterwards.
pub proof fn lemma_failed_decode_is_fatal(wanted: u32, event: Event, later: Seq<Event>)
    requires
        event == Event::Malformed || event == Event::DecodeFailed,
    ensures
        transition(wanted, Phase::AwaitingSamples, event).0 is Aborted,
        transition(wanted, Phase::AwaitingSamples, event).1 is Abort,
        phase_after(wanted, transition(wanted, Phase::AwaitingSamples, event).0, later)
            is Aborted,
        kept_after(wanted, transition(wanted, Phase::AwaitingSamples, event).0, later) == 0,
{
    lemma_over_is_final(wanted, transition(wanted, Phase::AwaitingSamples, event).0, later);
}

/// Samples are kept only for packets of the selected track: while `events`
/// come in, the caller is told to keep samples at most as often as a packet of
/// the track `wanted` was read.
pub proof fn lemma_kept_at_most_wanted_packets(wanted: u32, phase: Phase, events: Seq<Event>)
    ensures
        kept_after(wanted, phase, events) <= wanted_packets(wanted, events) + (if phase
            is AwaitingSamples {
            1nat
        } else {
            0nat
        }),
    decreases events.len(),
{
    if events.len() > 0 {
        let (next, action) = transition(wanted, phase, events[0]);
        lemma_kept_at_most_wanted_packets(wanted, next, events.drop_first());
    }
}

/// How many of `events` report a packet of the track `wanted`.
pub open spec fn wanted_packets(wanted: u32, events: Seq<Event>) -> nat
    decreases events.len(),
{
    if events.len() == 0 {
        0
    } else {
        let here: nat = if events[0] == (Event::PacketRead { track: wanted }) { 1 } else { 0 };
        here + wanted_packets(wanted, events.drop_first())
    }
}


/// Why no audio stream came out of a file. Where the demuxer, the codec or
/// the file system gave a reason, `cause` holds it as they worded it.
#[derive(Clone, Debug, PartialEq, Eq)]
pub enum DecodeError {
    /// The file could not be opened or read.
    Unreadable { cause: String },
    /// No demuxer knows the container.
    UnsupportedFormat,
    /// The container holds no track that names a codec.
    NoAudioTrack,
    /// No decoder knows the track's codec.
    UnsupportedCodec,
    /// The demuxer failed in the middle of the stream.
    PacketRead { cause: String },
    /// The codec found a packet malformed.
    Malformed { cause: String },
    /// The codec failed on a packet in any other way.
    DecoderFailed { cause: String },
    /// The decoded samples do not make up one stream.
    Stream { fault: StreamError },
}

/// What `message` says of each error.
pub open spec fn decode_message(error: DecodeError) -> Seq<char> {
    match error {
        DecodeError::Unreadable { cause } => "Failed to open audio file: "@ + cause@,
        DecodeError::UnsupportedFormat => "Unsupported format"@,
        DecodeError::NoAudioTrack => "No supported audio tracks"@,
        DecodeError::UnsupportedCodec => "Unsupported codec"@,
        DecodeError::PacketRead { cause } => "Failed to get packet: "@ + cause@,
        DecodeError::Malformed { cause } => "Failed to decode: "@ + cause@,
        DecodeError::DecoderFailed { cause } => "Decoder failed: "@ + cause@,
        DecodeError::Stream { fault } => "Failed to decode: "@ + stream_message(fault),
    }
}

impl DecodeError {
    /// The error that reports a failure of the decoding loop.
    pub fn from_failure(failure: Failure, cause: String) -> (error: DecodeError)
        ensures
            error == match failure {
                Failure::PacketRead => DecodeError::PacketRead { cause },
                Failure::Malformed => DecodeError::Malformed { cause },
                Failure::Decoder => DecodeError::DecoderFailed { cause },
            },
    {
        match failure {
            Failure::PacketRead => DecodeError::PacketRead { cause },
            Failure::Malformed => DecodeError::Malformed { cause },
            Failure::Decoder => DecodeError::DecoderFailed { cause },
        }
    }

    /// A sentence that says what went wrong, with the cause where one is known.
    pub fn message(&self) -> (text: String)
        ensures
            text@ == decode_message(*self),
    {
        match self {
            DecodeError::Unreadable { cause } => String::from_str(
                "Failed to open audio file: ",
            ).concat(cause.as_str()),
            DecodeError::UnsupportedFormat => String::from_str("Unsupported format"),
            DecodeError::NoAudioTrack => String::from_str("No supported audio tracks"),
            DecodeError::UnsupportedCodec => String::from_str("Unsupported codec"),
            DecodeError::PacketRead { cause } => String::from_str("Failed to get packet: ").concat(
                cause.as_str(),
            ),
            DecodeError::Malformed { cause } => String::from_str("Failed to decode: ").concat(
                cause.as_str(),
            ),
            DecodeError::DecoderFailed { cause } => String::from_str("Decoder failed: ").concat(
                cause.as_str(),
            ),
            DecodeError::Stream { fault } => {
                let reason = fault.message();
                String::from_str("Failed to decode: ").concat(reason.as_str())
            },
        }
    }
}

} // verus!
