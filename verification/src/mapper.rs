//! The bar mapper: from a magnitude spectrum to one amplitude per bar.
//!
//! Each bar stands for a band of neighbouring frequency bins. Its
//! instantaneous value is the largest magnitude in the band, scaled so that
//! the configured ceiling is full height and clipped there. The value shown
//! is smoothed over time: a bar rises at once and falls by a fixed factor
//! per frame.
//!
//! Amplitudes and factors are Q16 fixed point: [`UNIT`] stands for 1.0.
//! Magnitudes are unsigned integers in a unit of the caller's choice; only
//! their ratio to the ceiling matters.

use crate::spectrum::{edges_fit, AnalysisError, BandLayout, MagnitudeSpectrum};
use vstd::prelude::*;

verus! {

/// The amplitude 1.0, and the factor 1.0, in Q16 fixed point.
pub const UNIT: u32 = 65536;

/// The fall per frame when nothing else is configured: 0.85.
pub const DEFAULT_DECAY: u32 = 55706;

/// How magnitudes become amplitudes.
#[derive(Clone, Copy, Debug, PartialEq, Eq)]
pub struct MapperConfig {
    /// The magnitude that is shown at full height.
    pub ceiling: u32,
    /// The factor, in Q16, by which a bar falls from one frame to the next.
    pub decay: u32,
}

impl MapperConfig {
    /// The ceiling is positive and the decay is a factor below one.
    pub open spec fn wf(&self) -> bool {
        self.ceiling > 0 && self.decay < UNIT
    }

    /// A configuration with the given ceiling and decay. A ceiling of zero is
    /// refused, and so is a decay that is not below one.
    pub fn new(ceiling: u32, decay: u32) -> (made: Result<MapperConfig, AnalysisError>)
        ensures
            ceiling == 0 ==> made == Err::<MapperConfig, AnalysisError>(
                AnalysisError::UnsupportedCeiling,
            ),
            ceiling > 0 && decay >= UNIT ==> made == Err::<MapperConfig, AnalysisError>(
                AnalysisError::UnsupportedDecay,
            ),
            ceiling > 0 && decay < UNIT ==> made == Ok::<MapperConfig, AnalysisError>(
                MapperConfig { ceiling, decay },
            ),
    {
        if ceiling == 0 {
            Err(AnalysisError::UnsupportedCeiling)
        } else if decay >= UNIT {
            Err(AnalysisError::UnsupportedDecay)
        } else {
            Ok(MapperConfig { ceiling, decay })
        }
    }
}

/// The largest magnitude among the bins `lo..hi`; zero for an empty band.
pub open spec fn peak(spectrum: Seq<u32>, lo: int, hi: int) -> u32
    decreases hi - lo,
{
    if lo >= hi {
        0
    } else {
        let rest = peak(spectrum, lo, hi - 1);
        if spectrum[hi - 1] > rest {
            spectrum[hi - 1]
        } else {
            rest
        }
    }
}

/// A magnitude as a share of the ceiling, clipped at one.
pub open spec fn normalized(magnitude: u32, ceiling: u32) -> u32
    recommends
        ceiling > 0,
{
    if magnitude >= ceiling {
        UNIT
    } else {
        (magnitude as int * UNIT as int / ceiling as int) as u32
    }
}

/// An amplitude one frame later, if nothing holds it up.
pub open spec fn decayed(amplitude: u32, decay: u32) -> u32 {
    (amplitude as int * decay as int / UNIT as int) as u32
}

/// The amplitude shown: the instantaneous one, or the decayed previous one
/// if that is larger.
pub open spec fn smoothed(previous: u32, instant: u32, decay: u32) -> u32 {
    if decayed(previous, decay) > instant {
        decayed(previous, decay)
    } else {
        instant
    }
}

/// The amplitude of bar `k` for one frame.
pub open spec fn bar_level(
    spectrum: Seq<u32>,
    edges: Seq<usize>,
    config: MapperConfig,
    previous: Seq<u32>,
    k: int,
) -> u32 {
    smoothed(
        previous[k],
        normalized(peak(spectrum, edges[k] as int, edges[k + 1] as int), config.ceiling),
        config.decay,
    )
}

/// The amplitudes of all bars for one frame.
pub open spec fn mapped(
    spectrum: Seq<u32>,
    edges: Seq<usize>,
    config: MapperConfig,
    previous: Seq<u32>,
) -> Seq<u32> {
    Seq::new((edges.len() - 1) as nat, |k: int| bar_level(spectrum, edges, config, previous, k))
}

/// Every amplitude is at most one.
pub open spec fn within_unit(levels: Seq<u32>) -> bool {
    forall|k: int| 0 <= k < levels.len() ==> #[trigger] levels[k] <= UNIT
}

/// One amplitude per bar, each between zero and one.
#[derive(Clone, Debug, PartialEq, Eq)]
pub struct BarAmplitudes {
    pub levels: Vec<u32>,
}

impl BarAmplitudes {
    /// No amplitude exceeds one.
    pub open spec fn wf(&self) -> bool {
        within_unit(self.levels@)
    }

    /// All bars at rest: what the first frame follows.
    pub fn silent(bars: usize) -> (made: BarAmplitudes)
        ensures
            made.wf(),
            made.levels@ == Seq::new(bars as nat, |k: int| 0u32),
    {
        let mut levels: Vec<u32> = Vec::new();
        let mut k: usize = 0;
        while k < bars
            invariant
                k <= bars,
                levels@ == Seq::new(k as nat, |k: int| 0u32),
            decreases bars - k,
        {
            levels.push(0);
            k += 1;
            assert(levels@ =~= Seq::new(k as nat, |k: int| 0u32));
        }
        BarAmplitudes { levels }
    }
}

/// The largest magnitude among the bins `lo..hi` of the spectrum.
pub fn band_peak(spectrum: &Vec<u32>, lo: usize, hi: usize) -> (top: u32)
    requires
        hi <= spectrum.len(),
    ensures
        top == peak(spectrum@, lo as int, hi as int),
{
    let mut top: u32 = 0;
    let mut i: usize = lo;
    while i < hi
        invariant
            hi <= spectrum.len(),
            lo <= i <= hi || (lo > hi && i == lo),
            top == peak(spectrum@, lo as int, i as int),
        decreases hi - i,
    {
        if spectrum[i] > top {
            top = spectrum[i];
        }
        i += 1;
    }
    top
}

/// Scales a magnitude to an amplitude: the ceiling and all above it are one.
pub fn normalize(magnitude: u32, ceiling: u32) -> (amplitude: u32)
    requires
        ceiling > 0,
    ensures
        amplitude == normalized(magnitude, ceiling),
        amplitude <= UNIT,
{
    if magnitude >= ceiling {
        UNIT
    } else {
        assert(magnitude as int * UNIT as int <= 0xffff_ffff * 65536) by (nonlinear_arith)
            requires
                0 <= magnitude <= 0xffff_ffff,
                UNIT == 65536,
        ;
        let scaled: u64 = magnitude as u64 * UNIT as u64 / ceiling as u64;
        assert(magnitude as int * UNIT as int / ceiling as int <= UNIT) by (nonlinear_arith)
            requires
                0 <= magnitude < ceiling,
        ;
        scaled as u32
    }
}

/// Smooths one bar: it takes the instantaneous amplitude at once when that
/// is the larger, and otherwise falls by the decay factor, but not below it.
pub fn smooth(previous: u32, instant: u32, decay: u32) -> (shown: u32)
    requires
        previous <= UNIT,
        instant <= UNIT,
        decay < UNIT,
    ensures
        shown == smoothed(previous, instant, decay),
        shown <= UNIT,
{
    assert(previous as int * decay as int / UNIT as int <= previous) by (nonlinear_arith)
        requires
            0 <= previous,
            0 <= decay < UNIT,
            UNIT == 65536,
    ;
    assert(previous as int * decay as int <= 65536 * 65536) by (nonlinear_arith)
        requires
            0 <= previous <= 65536,
            0 <= decay < 65536,
    ;
    let fallen: u32 = (previous as u64 * decay as u64 / UNIT as u64) as u32;
    if fallen > instant {
        fallen
    } else {
        instant
    }
}

/// Maps one spectrum to bar amplitudes, given the amplitudes of the frame before.
pub fn map_frame(
    spectrum: &MagnitudeSpectrum,
    layout: &BandLayout,
    config: &MapperConfig,
    previous: &BarAmplitudes,
) -> (next: BarAmplitudes)
    requires
        layout.wf(spectrum.bins@.len()),
        config.wf(),
        previous.wf(),
        previous.levels@.len() == layout.bars(),
    ensures
        next.wf(),
        next.levels@ == mapped(spectrum.bins@, layout.edges@, *config, previous.levels@),
{
    let spectrum = &spectrum.bins;
    let bars: usize = layout.bar_count();
    let mut levels: Vec<u32> = Vec::new();
    let mut k: usize = 0;
    while k < bars
        invariant
            layout.wf(spectrum@.len()),
            config.wf(),
            previous.wf(),
            previous.levels@.len() == layout.bars(),
            bars == layout.bars(),
            k <= bars,
            levels@.len() == k,
            within_unit(levels@),
            forall|b: int|
                0 <= b < k ==> levels@[b] == bar_level(
                    spectrum@,
                    layout.edges@,
                    *config,
                    previous.levels@,
                    b,
                ),
        decreases bars - k,
    {
        let lo: usize = layout.edges[k];
        let hi: usize = layout.edges[k + 1];
        let top: u32 = band_peak(spectrum, lo, hi);
        let instant: u32 = normalize(top, config.ceiling);
        let shown: u32 = smooth(previous.levels[k], instant, config.decay);
        levels.push(shown);
        k += 1;
    }
    assert(levels@ =~= mapped(spectrum@, layout.edges@, *config, previous.levels@));
    BarAmplitudes { levels }
}

/// The band's peak is its largest magnitude: no bin of the band exceeds it,
/// and it is the magnitude of one of them, or zero if the band is empty.
pub proof fn lemma_peak_is_largest(spectrum: Seq<u32>, lo: int, hi: int)
    ensures
        forall|i: int| lo <= i < hi ==> #[trigger] spectrum[i] <= peak(spectrum, lo, hi),
        lo >= hi ==> peak(spectrum, lo, hi) == 0,
        lo < hi ==> exists|i: int| lo <= i < hi && #[trigger] spectrum[i] == peak(spectrum, lo, hi),
    decreases hi - lo,
{
    if lo < hi {
        lemma_peak_is_largest(spectrum, lo, hi - 1);
        if lo < hi - 1 {
            let i = choose|i: int|
                lo <= i < hi - 1 && #[trigger] spectrum[i] == peak(spectrum, lo, hi - 1);
            if spectrum[hi - 1] > peak(spectrum, lo, hi - 1) {
                assert(spectrum[hi - 1] == peak(spectrum, lo, hi));
            } else {
                assert(spectrum[i] == peak(spectrum, lo, hi));
            }
        } else {
            assert(spectrum[hi - 1] == peak(spectrum, lo, hi));
        }
    }
}

/// Every amplitude that the mapper gives lies between zero and one, whatever
/// the magnitudes are.
pub proof fn lemma_mapped_within_unit(
    spectrum: Seq<u32>,
    edges: Seq<usize>,
    config: MapperConfig,
    previous: Seq<u32>,
)
    requires
        config.wf(),
        within_unit(previous),
        previous.len() == edges.len() - 1,
    ensures
        within_unit(mapped(spectrum, edges, config, previous)),
{
    assert forall|k: int| 0 <= k < edges.len() - 1 implies bar_level(
        spectrum,
        edges,
        config,
        previous,
        k,
    ) <= UNIT by {
        let top = peak(spectrum, edges[k] as int, edges[k + 1] as int);
        lemma_normalized_within_unit(top, config.ceiling);
        lemma_decayed_falls(previous[k], config.decay);
    }
}

proof fn lemma_normalized_within_unit(magnitude: u32, ceiling: u32)
    requires
        ceiling > 0,
    ensures
        normalized(magnitude, ceiling) <= UNIT,
        magnitude == 0 ==> normalized(magnitude, ceiling) == 0,
{
    if magnitude < ceiling {
        assert(0 <= magnitude as int * UNIT as int / ceiling as int <= UNIT) by (nonlinear_arith)
            requires
                0 <= magnitude < ceiling,
        ;
        assert(magnitude == 0 ==> magnitude as int * UNIT as int / ceiling as int == 0)
            by (nonlinear_arith)
            requires
                ceiling > 0,
        ;
    }
}

proof fn lemma_decayed_falls(amplitude: u32, decay: u32)
    requires
        decay < UNIT,
    ensures
        decayed(amplitude, decay) <= amplitude,
        amplitude > 0 ==> decayed(amplitude, decay) < amplitude,
{
    assert(0 <= amplitude as int * decay as int / 65536 <= amplitude) by (nonlinear_arith)
        requires
            0 <= amplitude,
            0 <= decay < 65536,
    ;
    assert(amplitude > 0 ==> amplitude as int * decay as int / 65536 < amplitude)
        by (nonlinear_arith)
        requires
            0 <= amplitude,
            0 <= decay < 65536,
    ;
}

/// Instant attack: a bar whose instantaneous amplitude exceeds what it
/// showed in the frame before shows the instantaneous amplitude.
pub proof fn lemma_attack_is_instant(previous: u32, instant: u32, decay: u32)
    requires
        decay < UNIT,
        instant > previous,
    ensures
        smoothed(previous, instant, decay) == instant,
{
    lemma_decayed_falls(previous, decay);
}

/// Gradual fall: a bar never shows less than its instantaneous amplitude and
/// never more than the larger of that and what it showed before. While the
/// decayed previous amplitude is still above the instantaneous one, the bar
/// shows a value strictly between the two.
pub proof fn lemma_fall_is_gradual(previous: u32, instant: u32, decay: u32)
    requires
        decay < UNIT,
    ensures
        smoothed(previous, instant, decay) >= instant,
        instant <= previous ==> smoothed(previous, instant, decay) <= previous,
        decayed(previous, decay) > instant ==> instant < smoothed(previous, instant, decay)
            < previous,
{
    lemma_decayed_falls(previous, decay);
}

/// A spectrum without any energy.
pub open spec fn is_silent(values: Seq<u32>) -> bool {
    forall|i: int| 0 <= i < values.len() ==> #[trigger] values[i] == 0
}

proof fn lemma_silent_peak(spectrum: Seq<u32>, lo: int, hi: int)
    requires
        is_silent(spectrum),
        0 <= lo,
        hi <= spectrum.len(),
    ensures
        peak(spectrum, lo, hi) == 0,
    decreases hi - lo,
{
    if lo < hi {
        lemma_silent_peak(spectrum, lo, hi - 1);
    }
}

/// Silence stays silent: from a silent spectrum, with all bars at rest in
/// the frame before, every bar is at zero.
pub proof fn lemma_silence_maps_to_rest(
    spectrum: Seq<u32>,
    edges: Seq<usize>,
    config: MapperConfig,
    previous: Seq<u32>,
)
    requires
        config.wf(),
        edges_fit(edges, spectrum.len()),
        previous.len() == edges.len() - 1,
        is_silent(spectrum),
        is_silent(previous),
    ensures
        is_silent(mapped(spectrum, edges, config, previous)),
{
    assert forall|k: int| 0 <= k < edges.len() - 1 implies bar_level(
        spectrum,
        edges,
        config,
        previous,
        k,
    ) == 0 by {
        assert(edges[k] <= edges[k + 1]);
        assert(edges[k + 1] <= edges[edges.len() - 1]);
        lemma_silent_peak(spectrum, edges[k] as int, edges[k + 1] as int);
        lemma_normalized_within_unit(0, config.ceiling);
        lemma_decayed_falls(previous[k], config.decay);
    }
}

/// The amplitudes after a run of frames, each mapped from the one before.
pub open spec fn carried(
    spectra: Seq<Seq<u32>>,
    edges: Seq<usize>,
    config: MapperConfig,
    start: Seq<u32>,
) -> Seq<u32>
    decreases spectra.len(),
{
    if spectra.len() == 0 {
        start
    } else {
        mapped(spectra.last(), edges, config, carried(spectra.drop_last(), edges, config, start))
    }
}

/// A silent stream keeps every bar at zero in every frame.
pub proof fn lemma_silent_stream_stays_at_rest(
    spectra: Seq<Seq<u32>>,
    edges: Seq<usize>,
    config: MapperConfig,
    start: Seq<u32>,
)
    requires
        config.wf(),
        start.len() == edges.len() - 1,
        is_silent(start),
        forall|i: int|
            0 <= i < spectra.len() ==> is_silent(#[trigger] spectra[i]) && edges_fit(
                edges,
                spectra[i].len(),
            ),
    ensures
        is_silent(carried(spectra, edges, config, start)),
        carried(spectra, edges, config, start).len() == start.len(),
    decreases spectra.len(),
{
    if spectra.len() > 0 {
        let before = spectra.drop_last();
        assert forall|i: int| 0 <= i < before.len() implies is_silent(#[trigger] before[i])
            && edges_fit(edges, before[i].len()) by {
            assert(before[i] == spectra[i]);
        }
        lemma_silent_stream_stays_at_rest(before, edges, config, start);
        lemma_silence_maps_to_rest(
            spectra.last(),
            edges,
            config,
            carried(before, edges, config, start),
        );
    }
}

} // verus!
