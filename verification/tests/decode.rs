use spectrum_bars::audio::StreamError;
use spectrum_bars::decode::{
    select_track, Action, DecodeError, DecodeSession, Event, Failure, Phase, TrackInfo,
};

fn track(id: u32, decodable: bool) -> TrackInfo {
    TrackInfo { id, decodable }
}

#[test]
fn first_decodable_track_is_selected() {
    let tracks = vec![track(7, false), track(3, true), track(9, true)];
    assert_eq!(select_track(&tracks), Some(1));
    assert_eq!(select_track(&vec![track(1, true)]), Some(0));
}

#[test]
fn no_track_is_selected_without_a_codec() {
    assert_eq!(select_track(&Vec::new()), None);
    assert_eq!(select_track(&vec![track(1, false), track(2, false)]), None);
}

#[test]
fn packets_of_the_selected_track_are_decoded_and_kept() {
    let mut session = DecodeSession::new(3);
    assert_eq!(session.phase, Phase::AwaitingPacket);
    assert_eq!(session.step(Event::PacketRead { track: 3 }), Action::DecodePacket);
    assert_eq!(session.phase, Phase::AwaitingSamples);
    assert_eq!(session.step(Event::Decoded), Action::KeepSamples);
    assert_eq!(session.phase, Phase::AwaitingPacket);
    assert!(!session.is_over());
}

#[test]
fn packets_of_other_tracks_are_skipped() {
    let mut session = DecodeSession::new(3);
    assert_eq!(session.step(Event::PacketRead { track: 4 }), Action::ReadPacket);
    assert_eq!(session.phase, Phase::AwaitingPacket);
}

#[test]
fn end_of_stream_completes_the_session() {
    let mut session = DecodeSession::new(0);
    assert_eq!(session.step(Event::EndOfStream), Action::Finish);
    assert_eq!(session.phase, Phase::Complete);
    assert!(session.is_over());
    assert_eq!(session.step(Event::PacketRead { track: 0 }), Action::Finish);
    assert_eq!(session.phase, Phase::Complete);
}

#[test]
fn read_failure_aborts_the_session() {
    let mut session = DecodeSession::new(0);
    assert_eq!(session.step(Event::ReadFailed), Action::Abort(Failure::PacketRead));
    assert_eq!(session.phase, Phase::Aborted(Failure::PacketRead));
    assert!(session.is_over());
    assert_eq!(session.step(Event::Decoded), Action::Abort(Failure::PacketRead));
}

#[test]
fn malformed_packet_aborts_the_session() {
    let mut session = DecodeSession::new(1);
    session.step(Event::PacketRead { track: 1 });
    assert_eq!(session.step(Event::Malformed), Action::Abort(Failure::Malformed));
    assert_eq!(session.phase, Phase::Aborted(Failure::Malformed));
}

#[test]
fn failed_decoder_aborts_the_session() {
    let mut session = DecodeSession::new(1);
    session.step(Event::PacketRead { track: 1 });
    session.step(Event::Decoded);
    session.step(Event::PacketRead { track: 1 });
    assert_eq!(session.step(Event::DecodeFailed), Action::Abort(Failure::Decoder));
    assert_eq!(session.phase, Phase::Aborted(Failure::Decoder));
    assert!(session.is_over());
    assert_eq!(session.step(Event::EndOfStream), Action::Abort(Failure::Decoder));
    assert_eq!(session.phase, Phase::Aborted(Failure::Decoder));
}

#[test]
fn only_the_end_of_the_stream_finishes() {
    let events = [
        Event::PacketRead { track: 0 },
        Event::PacketRead { track: 1 },
        Event::ReadFailed,
        Event::Decoded,
        Event::Malformed,
        Event::DecodeFailed,
    ];
    for first in events {
        for second in events {
            for third in events {
                let mut session = DecodeSession::new(1);
                for event in [first, second, third] {
                    assert_ne!(session.step(event), Action::Finish);
                    assert_ne!(session.phase, Phase::Complete);
                }
            }
        }
    }
}

#[test]
fn events_out_of_turn_change_nothing() {
    let mut session = DecodeSession::new(1);
    assert_eq!(session.step(Event::Decoded), Action::ReadPacket);
    assert_eq!(session.step(Event::Malformed), Action::ReadPacket);
    assert_eq!(session.phase, Phase::AwaitingPacket);
    session.step(Event::PacketRead { track: 1 });
    assert_eq!(session.step(Event::EndOfStream), Action::DecodePacket);
    assert_eq!(session.step(Event::PacketRead { track: 1 }), Action::DecodePacket);
    assert_eq!(session.phase, Phase::AwaitingSamples);
}

#[test]
fn samples_are_kept_once_per_decoded_packet() {
    let events = [
        Event::PacketRead { track: 2 },
        Event::Decoded,
        Event::PacketRead { track: 5 },
        Event::PacketRead { track: 2 },
        Event::Decoded,
        Event::PacketRead { track: 2 },
        Event::DecodeFailed,
        Event::PacketRead { track: 2 },
        Event::Decoded,
    ];
    let mut session = DecodeSession::new(2);
    let mut kept = 0;
    for event in events {
        if session.step(event) == Action::KeepSamples {
            kept += 1;
        }
    }
    assert_eq!(kept, 2);
    assert_eq!(session.phase, Phase::Aborted(Failure::Decoder));
}

#[test]
fn decode_errors_say_what_failed() {
    let cause = String::from("end of file");
    assert_eq!(
        DecodeError::Unreadable { cause: String::from("No such file") }.message(),
        "Failed to open audio file: No such file"
    );
    assert_eq!(DecodeError::UnsupportedFormat.message(), "Unsupported format");
    assert_eq!(DecodeError::NoAudioTrack.message(), "No supported audio tracks");
    assert_eq!(DecodeError::UnsupportedCodec.message(), "Unsupported codec");
    assert_eq!(
        DecodeError::from_failure(Failure::PacketRead, cause.clone()).message(),
        "Failed to get packet: end of file"
    );
    assert_eq!(
        DecodeError::from_failure(Failure::Malformed, cause.clone()).message(),
        "Failed to decode: end of file"
    );
    assert_eq!(
        DecodeError::from_failure(Failure::Decoder, cause.clone()),
        DecodeError::DecoderFailed { cause: cause.clone() }
    );
    assert_eq!(
        DecodeError::from_failure(Failure::Decoder, cause).message(),
        "Decoder failed: end of file"
    );
    assert_eq!(
        DecodeError::Stream { fault: StreamError::FormatChanged }.message(),
        "Failed to decode: the signal changes its format"
    );
    assert_eq!(
        DecodeError::Stream { fault: StreamError::PartialFrame }.message(),
        "Failed to decode: a packet ends within a frame"
    );
}
