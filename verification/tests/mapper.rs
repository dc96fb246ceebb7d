use spectrum_bars::mapper::{
    band_peak, map_frame, normalize, smooth, BarAmplitudes, MapperConfig, DEFAULT_DECAY, UNIT,
};
use spectrum_bars::spectrum::{AnalysisError, BandLayout, MagnitudeSpectrum};

fn spectrum(bins: Vec<u32>) -> MagnitudeSpectrum {
    MagnitudeSpectrum { bins }
}

#[test]
fn config_needs_ceiling_and_decay_below_one() {
    assert_eq!(MapperConfig::new(0, 100), Err(AnalysisError::UnsupportedCeiling));
    assert_eq!(MapperConfig::new(0, UNIT), Err(AnalysisError::UnsupportedCeiling));
    assert_eq!(MapperConfig::new(10, UNIT), Err(AnalysisError::UnsupportedDecay));
    assert_eq!(MapperConfig::new(10, u32::MAX), Err(AnalysisError::UnsupportedDecay));
    assert_eq!(MapperConfig::new(10, 0), Ok(MapperConfig { ceiling: 10, decay: 0 }));
    assert_eq!(MapperConfig::new(1, UNIT - 1), Ok(MapperConfig { ceiling: 1, decay: UNIT - 1 }));
}

#[test]
fn layout_needs_rising_edges_within_the_spectrum() {
    assert!(BandLayout::new(vec![1, 3, 3, 8], 8).is_some());
    assert!(BandLayout::new(vec![1, 2], 1).is_none());
    assert!(BandLayout::new(vec![0, 2], 4).is_none());
    assert!(BandLayout::new(vec![1], 4).is_none());
    assert!(BandLayout::new(Vec::new(), 4).is_none());
    assert!(BandLayout::new(vec![1, 4, 3, 8], 8).is_none());
    assert!(BandLayout::new(vec![1, 4, 9], 8).is_none());
    let layout = BandLayout::new(vec![1, 3, 3, 8], 8).unwrap();
    assert_eq!(layout.bar_count(), 3);
}

#[test]
fn bin_belongs_to_one_band() {
    let layout = BandLayout::new(vec![1, 3, 3, 8], 9).unwrap();
    assert_eq!(layout.bar_of(0), None);
    assert_eq!(layout.bar_of(1), Some(0));
    assert_eq!(layout.bar_of(2), Some(0));
    assert_eq!(layout.bar_of(3), Some(2));
    assert_eq!(layout.bar_of(7), Some(2));
    assert_eq!(layout.bar_of(8), None);
}

#[test]
fn peak_is_the_largest_magnitude_of_the_band() {
    let spectrum = vec![9, 1, 7, 3, 8, 2];
    assert_eq!(band_peak(&spectrum, 1, 4), 7);
    assert_eq!(band_peak(&spectrum, 0, 6), 9);
    assert_eq!(band_peak(&spectrum, 3, 6), 8);
    assert_eq!(band_peak(&spectrum, 5, 6), 2);
    assert_eq!(band_peak(&spectrum, 2, 2), 0);
    assert_eq!(band_peak(&spectrum, 4, 2), 0);
}

#[test]
fn magnitude_is_scaled_to_the_ceiling_and_clipped() {
    assert_eq!(normalize(0, 1000), 0);
    assert_eq!(normalize(250, 1000), UNIT / 4);
    assert_eq!(normalize(500, 1000), UNIT / 2);
    assert_eq!(normalize(999, 1000), 65470);
    assert_eq!(normalize(1000, 1000), UNIT);
    assert_eq!(normalize(u32::MAX, 1000), UNIT);
    assert_eq!(normalize(u32::MAX - 1, u32::MAX), UNIT - 1);
    assert_eq!(normalize(1, 3), 21845);
}

#[test]
fn bar_rises_at_once() {
    assert_eq!(smooth(1000, 40000, DEFAULT_DECAY), 40000);
    assert_eq!(smooth(0, UNIT, DEFAULT_DECAY), UNIT);
    assert_eq!(smooth(UNIT - 1, UNIT, UNIT - 1), UNIT);
}

#[test]
fn bar_falls_by_the_decay() {
    assert_eq!(smooth(UNIT, 0, DEFAULT_DECAY), 55706);
    assert_eq!(smooth(40000, 1000, UNIT / 2), 20000);
    assert_eq!(smooth(3, 0, UNIT / 2), 1);
    assert_eq!(smooth(1, 0, UNIT - 1), 0);
    assert_eq!(smooth(40000, 0, 0), 0);
}

#[test]
fn bar_does_not_fall_below_the_instantaneous_amplitude() {
    assert_eq!(smooth(UNIT, 60000, DEFAULT_DECAY), 60000);
    assert_eq!(smooth(40000, 39999, UNIT / 2), 39999);
    assert_eq!(smooth(40000, 40000, UNIT / 2), 40000);
}

#[test]
fn falling_bar_lies_between_previous_and_instantaneous() {
    for previous in [1u32, 2, 100, 30000, UNIT] {
        for instant in [0u32, 1, 50, 20000, UNIT] {
            for decay in [0u32, 1, UNIT / 2, DEFAULT_DECAY, UNIT - 1] {
                let shown = smooth(previous, instant, decay);
                let fallen = (previous as u64 * decay as u64 / UNIT as u64) as u32;
                assert!(shown >= instant);
                assert!(shown <= UNIT);
                if instant > previous {
                    assert_eq!(shown, instant);
                } else if fallen > instant {
                    assert!(instant < shown && shown < previous);
                } else {
                    assert_eq!(shown, instant);
                }
            }
        }
    }
}

#[test]
fn frame_is_mapped_bar_by_bar() {
    let layout = BandLayout::new(vec![1, 2, 4, 4, 6], 6).unwrap();
    let config = MapperConfig::new(1000, UNIT / 2).unwrap();
    let spectrum = spectrum(vec![5000, 250, 100, 500, 2000, 0]);
    let previous = BarAmplitudes { levels: vec![0, UNIT, 30000, 10] };
    let next = map_frame(&spectrum, &layout, &config, &previous);
    assert_eq!(next.levels, vec![UNIT / 4, UNIT / 2, 15000, UNIT]);
    let after = map_frame(&self::spectrum(vec![0; 6]), &layout, &config, &next);
    assert_eq!(after.levels, vec![UNIT / 8, UNIT / 4, 7500, UNIT / 2]);
}

#[test]
fn amplitudes_stay_within_one() {
    let layout = BandLayout::new(vec![1, 2, 3, 4], 4).unwrap();
    let config = MapperConfig::new(1, UNIT - 1).unwrap();
    let mut carry = BarAmplitudes::silent(3);
    for bins in [
        vec![u32::MAX; 4],
        vec![0, 1, 2, 3],
        vec![0, u32::MAX, 0, 1],
        vec![0; 4],
    ] {
        carry = map_frame(&spectrum(bins), &layout, &config, &carry);
        assert_eq!(carry.levels.len(), 3);
        assert!(carry.levels.iter().all(|&level| level <= UNIT));
    }
}

#[test]
fn silence_keeps_every_bar_at_zero() {
    let layout = BandLayout::new(vec![1, 3, 5, 9], 9).unwrap();
    let config = MapperConfig::new(4096, DEFAULT_DECAY).unwrap();
    let mut carry = BarAmplitudes::silent(3);
    assert_eq!(carry.levels, vec![0, 0, 0]);
    for _ in 0..10 {
        carry = map_frame(&spectrum(vec![0; 9]), &layout, &config, &carry);
        assert_eq!(carry.levels, vec![0, 0, 0]);
    }
}
