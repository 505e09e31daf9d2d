//! Indexing of the synthesised spectra: the signed frequency index of an FFT
//! bin, the bins that fall in the bandpass, and the sizes of the random phase
//! buffers.

use vstd::prelude::*;

verus! {

/// Default oversampling factor of the synthesised spectra: the spectrum of
/// a window has this many bins per output sample.
pub const DEFAULT_FREQUENCY_RESOLUTION: usize = 4;

/// Signed frequency index of FFT bin `bin` out of `num_bins`: the bins of
/// the lower half are the non-negative frequencies, the others the negative
/// ones, counted back from `num_bins`.
pub open spec fn fft_bin_index_spec(num_bins: int, bin: int) -> int {
    if bin < num_bins / 2 { bin } else { bin - num_bins }
}

/// Signed frequency index of FFT bin `bin` of a spectrum of `num_bins`
/// bins. The frequency of the bin is this index times the sample frequency
/// divided by `num_bins`.
///
/// For a bin of the spectrum (`bin < num_bins`) the index is congruent to
/// `bin` modulo `num_bins` and lies in `-(num_bins - num_bins / 2) .. num_bins / 2`.
pub fn fft_bin_index(num_bins: usize, bin: usize) -> (r: i64)
    requires
        bin < num_bins / 2 || (num_bins <= i64::MAX && bin <= i64::MAX),
    ensures
        r == fft_bin_index_spec(num_bins as int, bin as int),
        bin < num_bins ==> -((num_bins - num_bins / 2) as int) <= r < num_bins / 2,
        bin < num_bins ==> (r - bin) % (num_bins as int) == 0,
{
    let half_n: usize = num_bins / 2;
    if bin < half_n {
        bin as i64
    } else {
        let r = bin as i64 - num_bins as i64;
        proof {
            if bin < num_bins {
                assert(r - bin == -(num_bins as int));
                vstd::arithmetic::div_mod::lemma_mod_self_0(num_bins as int);
                vstd::arithmetic::div_mod::lemma_mod_multiples_vanish(-1, 0, num_bins as int);
            }
        }
        r
    }
}

/// Distinct bins of a spectrum have distinct frequency indices.
pub proof fn lemma_fft_bin_index_injective(num_bins: int, a: int, b: int)
    requires
        0 <= a < num_bins,
        0 <= b < num_bins,
        a != b,
    ensures
        fft_bin_index_spec(num_bins, a) != fft_bin_index_spec(num_bins, b),
{
}

/// Bin `i` is visited: it lies from `index_min` through `index_max` and
/// exists in both the spectrum and the phase block.
pub open spec fn visits_bin(i: int, index_min: int, index_max: int, spectrum_len: int, phases_len: int) -> bool {
    index_min <= i <= index_max && i < spectrum_len && i < phases_len
}

/// Bins `r.0 .. r.1` of the spectrum that the synthesis loops visit: those
/// from `index_min` through `index_max` that exist both in the spectrum
/// (`spectrum_len` bins) and in the phase block paired with it
/// (`phases_len` phases).
pub fn bandpass_bin_range(index_min: usize, index_max: usize, spectrum_len: usize, phases_len: usize) -> (r: (usize, usize))
    requires
        index_max < usize::MAX,
    ensures
        r.0 <= r.1,
        r.1 <= spectrum_len,
        r.1 <= phases_len,
        r.1 <= index_max + 1,
        r.1 == index_max + 1 || r.1 == spectrum_len || r.1 == phases_len,
        r.0 == index_min || r.0 == r.1,
        forall|i: int| r.0 <= i < r.1 <==> #[trigger] visits_bin(i, index_min as int, index_max as int, spectrum_len as int, phases_len as int),
{
    let mut end = index_max + 1;
    if spectrum_len < end {
        end = spectrum_len;
    }
    if phases_len < end {
        end = phases_len;
    }
    let start = if index_min < end { index_min } else { end };
    (start, end)
}

/// Sizes of the random phase buffers of one simulation run.
#[derive(Clone, Copy, Debug, PartialEq, Eq)]
pub struct PhaseLayout {
    /// Bins of each synthesised spectrum: window size times oversampling factor.
    pub num_spectrum_bins: usize,
    /// One system-noise phase per antenna and bin.
    pub num_system_noise_phases: usize,
    /// One phase per source and bin.
    pub num_source_phases: usize,
}

/// Sizes of the phase buffers for spectra of `sample_window_size *
/// frequency_resolution` bins, `num_antennas` antennas and `num_sources` sources.
pub fn phase_layout(sample_window_size: usize, frequency_resolution: usize, num_antennas: usize, num_sources: usize) -> (r: PhaseLayout)
    requires
        sample_window_size * frequency_resolution <= usize::MAX,
        num_antennas * (sample_window_size * frequency_resolution) <= usize::MAX,
        num_sources * (sample_window_size * frequency_resolution) <= usize::MAX,
    ensures
        r.num_spectrum_bins == sample_window_size * frequency_resolution,
        r.num_system_noise_phases == num_antennas * r.num_spectrum_bins,
        r.num_source_phases == num_sources * r.num_spectrum_bins,
{
    let bins = sample_window_size * frequency_resolution;
    PhaseLayout {
        num_spectrum_bins: bins,
        num_system_noise_phases: num_antennas * bins,
        num_source_phases: num_sources * bins,
    }
}

} // verus!
