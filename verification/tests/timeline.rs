use spectrum_bars::audio::AudioStream;
use spectrum_bars::timeline::Timeline;

fn timeline(sample_frames: u64, sample_rate: u32, frame_rate: u32) -> Timeline {
    Timeline::new(sample_frames, sample_rate, frame_rate).unwrap()
}

#[test]
fn timeline_needs_positive_rates() {
    assert_eq!(Timeline::new(10, 0, 30), None);
    assert_eq!(Timeline::new(10, 44100, 0), None);
    assert_eq!(
        Timeline::new(10, 44100, 30),
        Some(Timeline { sample_frames: 10, sample_rate: 44100, frame_rate: 30 })
    );
}

#[test]
fn frame_count_is_duration_times_rate_rounded_up() {
    assert_eq!(timeline(44100, 44100, 30).frame_count(), Some(30));
    assert_eq!(timeline(44101, 44100, 30).frame_count(), Some(31));
    assert_eq!(timeline(44099, 44100, 30).frame_count(), Some(30));
    assert_eq!(timeline(1470, 44100, 30).frame_count(), Some(1));
    assert_eq!(timeline(1471, 44100, 30).frame_count(), Some(2));
    assert_eq!(timeline(1, 44100, 30).frame_count(), Some(1));
    assert_eq!(timeline(48000 * 90, 48000, 25).frame_count(), Some(2250));
    assert_eq!(timeline(10, 3, 7).frame_count(), Some(24));
}

#[test]
fn empty_stream_has_no_frames() {
    assert_eq!(timeline(0, 44100, 30).frame_count(), Some(0));
}

#[test]
fn frame_count_beyond_64_bits_is_refused() {
    assert_eq!(timeline(u64::MAX, 1, 2).frame_count(), None);
    assert_eq!(timeline(u64::MAX, 1, 1).frame_count(), Some(u64::MAX));
    assert_eq!(timeline(u64::MAX, u32::MAX, u32::MAX).frame_count(), Some(u64::MAX));
}

#[test]
fn windows_start_where_the_frame_is_in_time() {
    let t = timeline(44100, 44100, 30);
    assert_eq!(t.window_origin(0), Some(0));
    assert_eq!(t.window_origin(1), Some(1470));
    assert_eq!(t.window_origin(29), Some(42630));
    let t = timeline(100, 8000, 3);
    assert_eq!(t.window_origin(1), Some(2666));
    assert_eq!(t.window_origin(2), Some(5333));
    assert_eq!(timeline(1, 2, 1).window_origin(u64::MAX), None);
}

#[test]
fn every_frame_starts_inside_the_stream() {
    for (frames, sample_rate, frame_rate) in
        [(44100u64, 44100u32, 30u32), (1, 8000, 60), (12345, 22050, 24), (100, 3, 1000)]
    {
        let t = timeline(frames, sample_rate, frame_rate);
        let total = t.frame_count().unwrap();
        let mut last = 0;
        for i in 0..total {
            let origin = t.window_origin(i).unwrap();
            assert!(origin < frames);
            assert!(origin >= last);
            last = origin;
        }
        assert!(t.window_origin(total).unwrap() >= frames);
    }
}

#[test]
fn timing_of_a_stream_counts_its_frames() {
    let mut stream = AudioStream::<i16>::new(8000, 2).unwrap();
    stream.push_frames(&vec![0; 2 * 8001]).unwrap();
    let t = Timeline::for_stream(&stream, 25).unwrap();
    assert_eq!(t, Timeline { sample_frames: 8001, sample_rate: 8000, frame_rate: 25 });
    assert_eq!(t.frame_count(), Some(26));
    assert_eq!(Timeline::for_stream(&stream, 0), None);
}
