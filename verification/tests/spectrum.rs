use spectrum_bars::audio::AudioStream;
use spectrum_bars::mapper::{map_frame, BarAmplitudes, MapperConfig, DEFAULT_DECAY, UNIT};
use spectrum_bars::pipeline::{Driver, Outcome, State};
use spectrum_bars::render::{bar_count, Style};
use spectrum_bars::spectrum::{Analysis, AnalysisError, MagnitudeSpectrum, DEFAULT_WINDOW};
use spectrum_bars::timeline::Timeline;

#[test]
fn powers_of_two_from_16_to_65536_are_supported() {
    for bits in 4..=16u32 {
        let analysis = Analysis::new(1 << bits).unwrap();
        assert_eq!(analysis.window, 1 << bits);
        assert_eq!(analysis.bits, bits);
        assert_eq!(analysis.bin_count(), (1 << (bits - 1)) + 1);
    }
    assert_eq!(Analysis::new(DEFAULT_WINDOW).unwrap().bin_count(), 1025);
}

#[test]
fn other_window_lengths_are_refused() {
    for window in [0usize, 1, 2, 8, 15, 17, 24, 1000, 2047, 2049, 3072, 65535, 65537, 131072] {
        assert_eq!(Analysis::new(window), Err(AnalysisError::UnsupportedWindow));
    }
    assert_eq!(Analysis::new(usize::MAX), Err(AnalysisError::UnsupportedWindow));
}

#[test]
fn bars_need_a_bin_each() {
    let analysis = Analysis::new(16).unwrap();
    assert_eq!(analysis.layout(0), Err(AnalysisError::UnsupportedBars));
    assert_eq!(analysis.layout(9), Err(AnalysisError::UnsupportedBars));
    assert_eq!(analysis.layout(8).unwrap().edges, vec![1, 2, 3, 4, 5, 6, 7, 8, 9]);
    assert_eq!(analysis.layout(1).unwrap().edges, vec![1, 9]);
}

#[test]
fn one_bar_per_octave_starts_at_the_powers_of_two() {
    let analysis = Analysis::new(2048).unwrap();
    assert_eq!(
        analysis.layout(10).unwrap().edges,
        vec![1, 2, 4, 8, 16, 32, 64, 128, 256, 512, 1025]
    );
    assert_eq!(analysis.layout(5).unwrap().edges, vec![1, 4, 16, 64, 256, 1025]);
    let analysis = Analysis::new(32).unwrap();
    assert_eq!(analysis.layout(4).unwrap().edges, vec![1, 2, 4, 8, 17]);
}

#[test]
fn bands_follow_the_octave_scale() {
    let analysis = Analysis::new(2048).unwrap();
    assert_eq!(
        analysis.layout(32).unwrap().edges,
        vec![
            1, 2, 3, 4, 5, 6, 7, 8, 9, 10, 11, 12, 14, 17, 22, 27, 32, 42, 52, 62, 80, 100, 120,
            152, 192, 232, 288, 368, 448, 544, 704, 864, 1025
        ]
    );
    assert_eq!(
        analysis.layout(20).unwrap().edges,
        vec![
            1, 2, 3, 4, 5, 6, 8, 12, 16, 24, 32, 48, 64, 96, 128, 192, 256, 384, 512, 768, 1025
        ]
    );
}

#[test]
fn layout_covers_every_bin_above_zero_once() {
    for (window, bars) in [(16usize, 3usize), (64, 32), (2048, 32), (2048, 53), (4096, 2048)] {
        let analysis = Analysis::new(window).unwrap();
        let layout = analysis.layout(bars).unwrap();
        assert_eq!(layout.bar_count(), bars);
        assert_eq!(layout.edges[0], 1);
        assert_eq!(layout.edges[bars], window / 2 + 1);
        assert!(layout.edges.windows(2).all(|pair| pair[0] < pair[1]));
        assert_eq!(layout.bar_of(0), None);
        assert_eq!(layout.bar_of(window / 2 + 1), None);
        let mut last = 0;
        for bin in 1..=window / 2 {
            let bar = layout.bar_of(bin).unwrap();
            assert!(bar == last || bar == last + 1);
            last = bar;
        }
        assert_eq!(last, bars - 1);
    }
}

/// The transform of a real signal whose length is a power of two.
fn transform(signal: &[f64]) -> Vec<(f64, f64)> {
    let n = signal.len();
    if n == 1 {
        return vec![(signal[0], 0.0)];
    }
    let even: Vec<f64> = signal.iter().step_by(2).copied().collect();
    let odd: Vec<f64> = signal.iter().skip(1).step_by(2).copied().collect();
    let (even, odd) = (transform(&even), transform(&odd));
    let mut out = vec![(0.0, 0.0); n];
    for k in 0..n / 2 {
        let angle = -std::f64::consts::TAU * k as f64 / n as f64;
        let (c, s) = (angle.cos(), angle.sin());
        let turned = (odd[k].0 * c - odd[k].1 * s, odd[k].0 * s + odd[k].1 * c);
        out[k] = (even[k].0 + turned.0, even[k].1 + turned.1);
        out[k + n / 2] = (even[k].0 - turned.0, even[k].1 - turned.1);
    }
    out
}

/// Magnitudes of a window under a Hann taper, divided by the window length,
/// in units of 2^-24.
fn magnitudes(window: &[f32]) -> Vec<u32> {
    let n = window.len();
    let tapered: Vec<f64> = window
        .iter()
        .enumerate()
        .map(|(i, &sample)| {
            let weight = 0.5 - 0.5 * (std::f64::consts::TAU * i as f64 / n as f64).cos();
            sample as f64 * weight
        })
        .collect();
    transform(&tapered)[..n / 2 + 1]
        .iter()
        .map(|&(re, im)| ((re * re + im * im).sqrt() / n as f64 * 16777216.0) as u32)
        .collect()
}

#[test]
fn sine_of_440_hz_lifts_its_bar_above_all_others_in_each_of_30_frames() {
    let sample_rate = 44100u32;
    let samples: Vec<f32> = (0..sample_rate)
        .map(|i| (std::f64::consts::TAU * 440.0 * i as f64 / sample_rate as f64).sin() as f32)
        .collect();
    let mut stream = AudioStream::<f32>::new(sample_rate, 1).unwrap();
    stream.push_frames(&samples).unwrap();

    let timeline = Timeline::new(stream.frame_count() as u64, sample_rate, 30).unwrap();
    let total = timeline.frame_count().unwrap();
    assert_eq!(total, 30);

    let bars = bar_count(Style::Linear, 768, 16, 8, 64) as usize;
    assert_eq!(bars, 32);
    let analysis = Analysis::new(DEFAULT_WINDOW).unwrap();
    let layout = analysis.layout(bars).unwrap();
    let config = MapperConfig::new(16777216 / 4, DEFAULT_DECAY).unwrap();
    let bin = analysis.bin_of(440, sample_rate).unwrap();
    assert_eq!(bin, 20);
    let target = layout.bar_of(bin).unwrap();
    assert_eq!(target, 13);

    let mut driver = Driver::new(total);
    let mut carry = BarAmplitudes::silent(bars);
    let mut frames = 0;
    while let State::Analyzing(frame) = driver.state {
        let origin = timeline.window_origin(frame).unwrap();
        let window = stream.window(0, origin, analysis.window, 0.0);
        assert_eq!(window.len(), DEFAULT_WINDOW);
        let spectrum = analysis.spectrum(magnitudes(&window)).unwrap();
        assert_eq!(spectrum.bins.len(), 1025);
        driver.advance(Outcome::Completed);
        carry = map_frame(&spectrum, &layout, &config, &carry);
        driver.advance(Outcome::Completed);
        assert!(carry.levels[target] > UNIT / 2, "frame {}: {:?}", frame, carry.levels);
        for (bar, &level) in carry.levels.iter().enumerate() {
            assert!(level <= UNIT);
            if bar != target {
                assert!(
                    level < UNIT / 2 && level < carry.levels[target] / 2,
                    "frame {}: {:?}",
                    frame,
                    carry.levels
                );
            }
        }
        driver.advance(Outcome::Completed);
        driver.advance(Outcome::Completed);
        frames += 1;
    }
    assert_eq!(driver.state, State::Done);
    assert_eq!(frames, 30);
}

#[test]
fn silent_stream_gives_silent_bars_in_every_frame() {
    let mut stream = AudioStream::<f32>::new(8000, 2).unwrap();
    stream.push_frames(&vec![0.0; 16000]).unwrap();
    let timeline = Timeline::new(stream.frame_count() as u64, 8000, 25).unwrap();
    assert_eq!(timeline.frame_count(), Some(25));
    let analysis = Analysis::new(256).unwrap();
    let layout = analysis.layout(12).unwrap();
    let config = MapperConfig::new(1 << 20, DEFAULT_DECAY).unwrap();
    let mut carry = BarAmplitudes::silent(12);
    for frame in 0..25 {
        let origin = timeline.window_origin(frame).unwrap();
        let left = stream.window(0, origin, 256, 0.0);
        let right = stream.window(1, origin, 256, 0.0);
        let mono: Vec<f32> = left.iter().zip(&right).map(|(l, r)| (l + r) / 2.0).collect();
        let spectrum = analysis.spectrum(magnitudes(&mono)).unwrap();
        carry = map_frame(&spectrum, &layout, &config, &carry);
        assert_eq!(carry.levels, vec![0; 12]);
    }
}

#[test]
fn spectrum_holds_one_magnitude_per_bin() {
    let analysis = Analysis::new(16).unwrap();
    assert_eq!(
        analysis.spectrum(vec![3; 9]),
        Some(MagnitudeSpectrum { bins: vec![3; 9] })
    );
    assert_eq!(analysis.spectrum(vec![3; 8]), None);
    assert_eq!(analysis.spectrum(vec![3; 10]), None);
    assert_eq!(analysis.spectrum(Vec::new()), None);
}

#[test]
fn frequency_has_its_nearest_bin() {
    let analysis = Analysis::new(2048).unwrap();
    assert_eq!(analysis.bin_of(0, 44100), Some(0));
    assert_eq!(analysis.bin_of(440, 44100), Some(20));
    assert_eq!(analysis.bin_of(1000, 44100), Some(46));
    assert_eq!(analysis.bin_of(22050, 44100), Some(1024));
    assert_eq!(analysis.bin_of(22051, 44100), None);
    assert_eq!(analysis.bin_of(100, 0), None);
    let analysis = Analysis::new(16).unwrap();
    assert_eq!(analysis.bin_of(249, 8000), Some(0));
    assert_eq!(analysis.bin_of(250, 8000), Some(1));
    assert_eq!(analysis.bin_of(749, 8000), Some(1));
    assert_eq!(analysis.bin_of(750, 8000), Some(2));
    assert_eq!(analysis.bin_of(u32::MAX / 2, u32::MAX), Some(8));
}
