//! The shape of the analysis: which window lengths are supported, how many
//! bins a spectrum has, and how the bins are shared out among the bars.
//!
//! The bands follow an octave scale: every octave of the spectrum gets the
//! same share of the bars, and within an octave the scale is linear. Where
//! the scale would leave a bar without a bin, the bar takes the next bin
//! instead, so that every bar has at least one.

use vstd::arithmetic::power2::{
    lemma2_to64, lemma_pow2_strictly_increases, lemma_pow2_unfold, pow2,
};
use vstd::prelude::*;

verus! {

/// The shortest supported window is two to this power.
pub const MIN_WINDOW_BITS: u32 = 4;

/// The longest supported window is two to this power.
pub const MAX_WINDOW_BITS: u32 = 16;

/// The window length when nothing else is configured.
pub const DEFAULT_WINDOW: usize = 2048;

/// Why an analysis cannot be set up.
#[derive(Clone, Copy, Debug, PartialEq, Eq)]
pub enum AnalysisError {
    /// The window length is not one of the supported powers of two.
    UnsupportedWindow,
    /// There are no bars, or more bars than bins to share out.
    UnsupportedBars,
    /// The magnitude that stands for full height is zero.
    UnsupportedCeiling,
    /// The decay is not a factor below one.
    UnsupportedDecay,
}

/// A window length that is two to the power `bits`.
pub open spec fn is_window(window: nat, bits: nat) -> bool {
    MIN_WINDOW_BITS <= bits <= MAX_WINDOW_BITS && window == pow2(bits)
}

/// The window length is one of the supported powers of two.
pub open spec fn is_supported(window: nat) -> bool {
    exists|bits: nat| is_window(window, bits)
}

/// The magnitudes of one window, one per frequency bin: bin 0 is the
/// constant part, the last bin is half the sample rate. Magnitudes are
/// unsigned integers in a unit of the caller's choice.
#[derive(Clone, Debug, PartialEq, Eq)]
pub struct MagnitudeSpectrum {
    pub bins: Vec<u32>,
}

/// The bands of the bars: bar `k` covers the bins from `edges[k]` up to, but
/// not including, `edges[k + 1]`.
#[derive(Clone, Debug, PartialEq, Eq)]
pub struct BandLayout {
    pub edges: Vec<usize>,
}

/// Band edges for a spectrum of `bins` bins: there is at least one band, the
/// bands leave out bin 0 (the constant part), follow one another in rising
/// order, and end within the spectrum.
pub open spec fn edges_fit(edges: Seq<usize>, bins: nat) -> bool {
    &&& edges.len() >= 2
    &&& edges[0] >= 1
    &&& forall|i: int, j: int| 0 <= i <= j < edges.len() ==> edges[i] <= edges[j]
    &&& edges[edges.len() - 1] <= bins
}

impl BandLayout {
    /// The layout fits a spectrum of `bins` bins.
    pub open spec fn wf(&self, bins: nat) -> bool {
        edges_fit(self.edges@, bins)
    }

    /// The number of bars.
    pub open spec fn bars(&self) -> nat {
        (self.edges@.len() - 1) as nat
    }

    /// Takes the edges as a layout if they fit a spectrum of `bins` bins.
    pub fn new(edges: Vec<usize>, bins: usize) -> (made: Option<BandLayout>)
        ensures
            made is Some == edges_fit(edges@, bins as nat),
            made matches Some(layout) ==> layout.edges@ == edges@,
    {
        if edges.len() < 2 || edges[0] < 1 || edges[edges.len() - 1] > bins {
            return None;
        }
        let mut k: usize = 1;
        while k < edges.len()
            invariant
                1 <= k <= edges.len(),
                forall|i: int, j: int| 0 <= i <= j < k ==> edges@[i] <= edges@[j],
            decreases edges.len() - k,
        {
            if edges[k - 1] > edges[k] {
                return None;
            }
            k += 1;
        }
        Some(BandLayout { edges })
    }

    /// The first bar whose band holds the bin, if there is one. In a layout
    /// that fits a spectrum the bands do not overlap, so it is the only one.
    pub fn bar_of(&self, bin: usize) -> (found: Option<usize>)
        ensures
            match found {
                Some(k) => k + 1 < self.edges@.len() && self.edges@[k as int] <= bin
                    < self.edges@[k + 1] && forall|j: int|
                    0 <= j < k ==> !(#[trigger] self.edges@[j] <= bin < self.edges@[j + 1]),
                None => forall|k: int|
                    0 <= k && k + 1 < self.edges@.len() ==> !(#[trigger] self.edges@[k] <= bin
                        < self.edges@[k + 1]),
            },
    {
        if self.edges.len() < 2 {
            return None;
        }
        let bars: usize = self.edges.len() - 1;
        let mut k: usize = 0;
        while k < bars
            invariant
                bars + 1 == self.edges@.len(),
                k <= bars,
                forall|j: int|
                    0 <= j < k ==> !(#[trigger] self.edges@[j] <= bin < self.edges@[j + 1]),
            decreases bars - k,
        {
            if self.edges[k] <= bin && bin < self.edges[k + 1] {
                return Some(k);
            }
            k += 1;
        }
        None
    }

    /// The number of bars.
    pub fn bar_count(&self) -> (count: usize)
        requires
            self.edges@.len() >= 1,
        ensures
            count == self.bars(),
    {
        self.edges.len() - 1
    }
}

/// Where the octave scale puts the lower edge of bar `k`, when `bars` bars
/// share `octaves` octaves that begin at bin 1: at the start of an octave
/// the scale is at that octave's power of two, and it rises evenly to the
/// next.
pub open spec fn scale_bin(octaves: nat, bars: nat, k: nat) -> nat
    recommends
        bars > 0,
{
    let x = k * octaves;
    (pow2(x / bars) * (bars + x % bars) / bars) as nat
}

/// The lower edge of bar `k`; the edge of index `bars` is the end of the
/// last bar. The edges start at bin 1 and end after the last bin. Between,
/// each edge lies where the scale puts it, unless that would leave the bar
/// before it, or one of the bars after it, without a bin.
pub open spec fn edge(octaves: nat, bars: nat, k: nat) -> nat
    decreases k,
{
    if k == 0 {
        1
    } else if k >= bars {
        pow2(octaves) + 1
    } else {
        let low = edge(octaves, bars, (k - 1) as nat) + 1;
        let high = (pow2(octaves) + 1 - (bars - k)) as nat;
        let want = scale_bin(octaves, bars, k);
        if want < low {
            low
        } else if want > high {
            high
        } else {
            want
        }
    }
}

/// The edges of all bars.
pub open spec fn octave_edges(octaves: nat, bars: nat) -> Seq<usize> {
    Seq::new(bars + 1, |k: int| edge(octaves, bars, k as nat) as usize)
}

/// The bin nearest to a frequency: the frequency times the window length
/// over the sample rate, rounded to the nearest whole number.
pub open spec fn nearest_bin(window: nat, hertz: nat, sample_rate: nat) -> nat
    recommends
        sample_rate > 0,
{
    (2 * hertz * window + sample_rate) / (2 * sample_rate)
}

/// A checked window length.
#[derive(Clone, Copy, Debug, PartialEq, Eq)]
pub struct Analysis {
    /// Samples per window.
    pub window: usize,
    /// The power of two that the window length is.
    pub bits: u32,
}

impl Analysis {
    /// The window length is the supported power of two that `bits` names.
    pub open spec fn wf(&self) -> bool {
        is_window(self.window as nat, self.bits as nat)
    }

    /// The number of bins of a spectrum: bin 0 is the constant part, the
    /// last bin is half the sample rate.
    pub open spec fn bins(&self) -> nat {
        (self.window / 2 + 1) as nat
    }

    /// The octaves between bin 1 and the last bin.
    pub open spec fn octaves(&self) -> nat {
        (self.bits - 1) as nat
    }

    /// Checks a window length.
    pub fn new(window: usize) -> (made: Result<Analysis, AnalysisError>)
        ensures
            match made {
                Ok(analysis) => analysis.wf() && analysis.window == window,
                Err(fault) => fault == AnalysisError::UnsupportedWindow && !is_supported(
                    window as nat,
                ),
            },
    {
        let mut bits: u32 = MIN_WINDOW_BITS;
        let mut power: usize = 16;
        proof {
            lemma2_to64();
        }
        while bits < MAX_WINDOW_BITS && power != window
            invariant
                MIN_WINDOW_BITS <= bits <= MAX_WINDOW_BITS,
                power == pow2(bits as nat),
                forall|lower: nat| MIN_WINDOW_BITS <= lower < bits ==> window != pow2(lower),
            decreases MAX_WINDOW_BITS - bits,
        {
            proof {
                lemma_pow2_unfold((bits + 1) as nat);
                lemma_pow2_strictly_increases(bits as nat, 16);
                lemma2_to64();
            }
            power = power * 2;
            bits += 1;
        }
        if power == window {
            Ok(Analysis { window, bits })
        } else {
            assert forall|other: nat| !is_window(window as nat, other) by {}
            Err(AnalysisError::UnsupportedWindow)
        }
    }

    /// The number of bins of a spectrum.
    pub fn bin_count(&self) -> (count: usize)
        requires
            self.wf(),
        ensures
            count == self.bins(),
            count == pow2(self.octaves()) + 1,
    {
        proof {
            lemma_pow2_unfold(self.bits as nat);
            lemma_pow2_strictly_increases(self.bits as nat, 17);
            lemma2_to64();
        }
        self.window / 2 + 1
    }

    /// The bin whose frequency is nearest to `hertz` at the given sample
    /// rate, or `None` if the sample rate is zero or the frequency lies above
    /// half of it.
    pub fn bin_of(&self, hertz: u32, sample_rate: u32) -> (found: Option<usize>)
        requires
            self.wf(),
        ensures
            found is Some == (sample_rate > 0 && 2 * hertz <= sample_rate),
            found matches Some(bin) ==> bin == nearest_bin(
                self.window as nat,
                hertz as nat,
                sample_rate as nat,
            ) && bin < self.bins(),
    {
        if sample_rate == 0 || hertz as u64 * 2 > sample_rate as u64 {
            return None;
        }
        proof {
            lemma_pow2_strictly_increases(self.bits as nat, 17);
            lemma2_to64();
            lemma_pow2_unfold(self.bits as nat);
            lemma_nearest_bin(self.window as nat, hertz as nat, sample_rate as nat);
            assert(2 * hertz * self.window <= 2 * 0xffff_ffff * 0x1_0000) by (nonlinear_arith)
                requires
                    hertz <= 0xffff_ffff,
                    self.window <= 0x1_0000,
            ;
        }
        let turns: u64 = 2 * (hertz as u64) * (self.window as u64);
        let bin: u64 = (turns + sample_rate as u64) / (2 * (sample_rate as u64));
        Some(bin as usize)
    }

    /// Takes the magnitudes as the spectrum of one window, if there is one
    /// magnitude for every bin.
    pub fn spectrum(&self, magnitudes: Vec<u32>) -> (made: Option<MagnitudeSpectrum>)
        requires
            self.wf(),
        ensures
            made is Some == (magnitudes@.len() == self.bins()),
            made matches Some(spectrum) ==> spectrum.bins@ == magnitudes@,
    {
        if magnitudes.len() == self.bin_count() {
            Some(MagnitudeSpectrum { bins: magnitudes })
        } else {
            None
        }
    }

    /// Shares the bins out among `bars` bars on the octave scale. There must
    /// be at least one bar and at most as many bars as bins above bin 0.
    pub fn layout(&self, bars: usize) -> (made: Result<BandLayout, AnalysisError>)
        requires
            self.wf(),
        ensures
            match made {
                Ok(layout) => 1 <= bars <= self.window / 2 && layout.edges@ == octave_edges(
                    self.octaves(),
                    bars as nat,
                ) && layout.wf(self.bins()),
                Err(fault) => fault == AnalysisError::UnsupportedBars && !(1 <= bars
                    <= self.window / 2),
            },
    {
        let bins: usize = self.bin_count();
        let half: usize = bins - 1;
        if bars < 1 || bars > half {
            return Err(AnalysisError::UnsupportedBars);
        }
        let octaves: usize = (self.bits - 1) as usize;
        let ghost l = self.octaves();
        let ghost n = bars as nat;
        proof {
            lemma_pow2_strictly_increases(l, 16);
            lemma2_to64();
        }
        let mut edges: Vec<usize> = Vec::new();
        edges.push(1);
        let mut k: usize = 1;
        while k < bars
            invariant
                1 <= k <= bars <= half,
                half == pow2(l),
                half <= 0x8000,
                octaves == l,
                octaves <= 15,
                n == bars,
                edges@.len() == k,
                forall|j: int| 0 <= j < k ==> edges@[j] == edge(l, n, j as nat),
            decreases bars - k,
        {
            proof {
                lemma_edge_bounds(l, n, (k - 1) as nat);
                lemma_scale_bound(l, n, k as nat);
            }
            let low: usize = edges[k - 1] + 1;
            let high: usize = half + 1 - (bars - k);
            let x: usize = k * octaves;
            let power: u64 = power_of_two((x / bars) as u32);
            let want: u64 = power * ((bars + x % bars) as u64) / (bars as u64);
            let next: usize = if want < low as u64 {
                low
            } else if want > high as u64 {
                high
            } else {
                want as usize
            };
            edges.push(next);
            k += 1;
        }
        edges.push(half + 1);
        proof {
            assert(edges@ =~= octave_edges(l, n));
            lemma_octave_edges_fit(l, n);
        }
        Ok(BandLayout { edges })
    }
}

fn power_of_two(exponent: u32) -> (power: u64)
    requires
        exponent <= 32,
    ensures
        power == pow2(exponent as nat),
        power <= 0x1_0000_0000,
{
    let mut power: u64 = 1;
    let mut done: u32 = 0;
    proof {
        lemma2_to64();
    }
    while done < exponent
        invariant
            done <= exponent <= 32,
            power == pow2(done as nat),
        decreases exponent - done,
    {
        proof {
            lemma_pow2_unfold((done + 1) as nat);
            lemma_pow2_strictly_increases(done as nat, 32);
            lemma2_to64();
        }
        power = power * 2;
        done += 1;
    }
    proof {
        if exponent < 32 {
            lemma_pow2_strictly_increases(exponent as nat, 32);
        }
        lemma2_to64();
    }
    power
}

proof fn lemma_scale_bound(octaves: nat, bars: nat, k: nat)
    requires
        octaves <= 15,
        1 <= bars <= 0x8000,
        k <= bars,
    ensures
        k * octaves <= 15 * 0x8000,
        (k * octaves) / bars <= octaves,
        pow2((k * octaves) / bars) <= 0x8000,
        pow2((k * octaves) / bars) * (bars + (k * octaves) % bars) <= 0x8000 * 0x10000,
{
    let x = k * octaves;
    assert(x <= bars * octaves && x <= 15 * 0x8000) by (nonlinear_arith)
        requires
            x == k * octaves,
            k <= bars <= 0x8000,
            octaves <= 15,
    ;
    vstd::arithmetic::div_mod::lemma_div_is_ordered(x as int, (bars * octaves) as int, bars as int);
    vstd::arithmetic::div_mod::lemma_div_multiples_vanish(octaves as int, bars as int);
    assert(bars * octaves == octaves * bars) by (nonlinear_arith);
    let o = x / bars;
    if o < 15 {
        lemma_pow2_strictly_increases(o, 15);
    }
    lemma2_to64();
    vstd::arithmetic::div_mod::lemma_mod_bound(x as int, bars as int);
    assert(pow2(o) * (bars + x % bars) <= 0x8000 * 0x10000) by (nonlinear_arith)
        requires
            pow2(o) <= 0x8000,
            bars + x % bars <= 0x10000,
    ;
}

/// The edges leave every bar at least one bin: they start at bin 1, rise
/// strictly, and leave room for the bars that follow.
pub proof fn lemma_edge_bounds(octaves: nat, bars: nat, k: nat)
    requires
        1 <= bars <= pow2(octaves),
        k <= bars,
    ensures
        1 <= edge(octaves, bars, k),
        edge(octaves, bars, k) + (bars - k) <= pow2(octaves) + 1,
        k > 0 ==> edge(octaves, bars, (k - 1) as nat) < edge(octaves, bars, k),
        k == bars ==> edge(octaves, bars, k) == pow2(octaves) + 1,
    decreases k,
{
    if k > 0 {
        lemma_edge_bounds(octaves, bars, (k - 1) as nat);
    }
}

proof fn lemma_edges_rise(octaves: nat, bars: nat, i: nat, j: nat)
    requires
        1 <= bars <= pow2(octaves),
        i <= j <= bars,
    ensures
        edge(octaves, bars, i) <= edge(octaves, bars, j),
    decreases j - i,
{
    if i < j {
        lemma_edges_rise(octaves, bars, i, (j - 1) as nat);
        lemma_edge_bounds(octaves, bars, j);
    }
}

/// The octave layout fits the spectrum that it was made for.
pub proof fn lemma_octave_edges_fit(octaves: nat, bars: nat)
    requires
        1 <= bars <= pow2(octaves),
        pow2(octaves) + 1 <= usize::MAX,
    ensures
        edges_fit(octave_edges(octaves, bars), pow2(octaves) + 1),
{
    let edges = octave_edges(octaves, bars);
    assert forall|k: int| 0 <= k <= bars implies 1 <= edge(octaves, bars, k as nat) <= pow2(
        octaves,
    ) + 1 && #[trigger] edges[k] == edge(octaves, bars, k as nat) by {
        lemma_edge_bounds(octaves, bars, k as nat);
    }
    assert forall|i: int, j: int| 0 <= i <= j < edges.len() implies edges[i] <= edges[j] by {
        lemma_edges_rise(octaves, bars, i as nat, j as nat);
    }
    lemma_edge_bounds(octaves, bars, bars);
}

/// The nearest bin lies within half a bin of the frequency, and a frequency
/// of at most half the sample rate has its bin in the spectrum.
pub proof fn lemma_nearest_bin(window: nat, hertz: nat, sample_rate: nat)
    requires
        sample_rate > 0,
    ensures
        2 * hertz * window - sample_rate < 2 * nearest_bin(window, hertz, sample_rate)
            * sample_rate <= 2 * hertz * window + sample_rate,
        2 * hertz <= sample_rate && window % 2 == 0 ==> nearest_bin(window, hertz, sample_rate)
            <= window / 2,
{
    let top = (2 * hertz * window + sample_rate) as int;
    let step = (2 * sample_rate) as int;
    let bin = top / step;
    vstd::arithmetic::div_mod::lemma_fundamental_div_mod(top, step);
    vstd::arithmetic::div_mod::lemma_mod_bound(top, step);
    assert(step * bin == 2 * bin * sample_rate) by (nonlinear_arith)
        requires
            step == 2 * sample_rate,
    ;
    if 2 * hertz <= sample_rate && window % 2 == 0 {
        assert(2 * hertz * window <= sample_rate * window) by (nonlinear_arith)
            requires
                2 * hertz <= sample_rate,
                window >= 0,
        ;
        let half = (window / 2) as int;
        assert(window == 2 * half);
        assert(2 * bin * sample_rate <= sample_rate * window + sample_rate);
        assert(2 * bin <= window + 1) by (nonlinear_arith)
            requires
                2 * bin * sample_rate <= sample_rate * window + sample_rate,
                sample_rate > 0,
        ;
    }
}

/// The scale is logarithmic at the octaves: where an edge falls on the
/// start of an octave, the scale puts it at that octave's power of two.
pub proof fn lemma_scale_doubles_per_octave(octaves: nat, bars: nat, k: nat)
    requires
        bars >= 1,
        (k * octaves) % bars == 0,
    ensures
        scale_bin(octaves, bars, k) == pow2((k * octaves) / bars),
{
    let p = pow2((k * octaves) / bars);
    vstd::arithmetic::div_mod::lemma_div_multiples_vanish(p as int, bars as int);
    assert(p * bars == bars * p) by (nonlinear_arith);
    assert(p * (bars + 0) == p * bars) by (nonlinear_arith);
}

} // verus!
