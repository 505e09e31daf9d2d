//! The dispatch plan of the GPU runtime: the sizes of its buffers, how the
//! sources are uploaded in tiles, how many workgroups each pass needs, the
//! stages of the in-place inverse FFT and how the read-back buffer is cut
//! into per-antenna sample blocks.

use crate::chunks::num_chunks;
use crate::power::is_power_of_two_spec;
use vstd::arithmetic::mul::{lemma_mul_inequality, lemma_mul_is_distributive_add_other_way};
use vstd::arithmetic::power2::{pow2, lemma_pow2_unfold, lemma2_to64};
use vstd::prelude::*;

verus! {

/// Largest number of sources uploaded to the GPU in one tile.
pub const GPU_TILE_SIZE: u32 = 1024;

/// Number of invocations in one compute workgroup along `x`.
pub const WORKGROUP_SIZE_X: u32 = 256;

/// Bytes of one complex sample in a spectra buffer (two 32-bit floats).
pub const COMPLEX_SAMPLE_BYTES: usize = 8;

/// Bytes of one phase value in the phases tile (a 32-bit float).
pub const PHASE_BYTES: usize = 4;

/// Uniform parameters of one stage of the inverse FFT shader: the transform
/// size `n_s`, the stage index, and padding to 16 bytes.
#[derive(Clone, Copy, Debug)]
pub struct ComputeIfftParams {
    pub n_s: u32,
    pub stage: u32,
    pub _p: [u32; 2],
}

impl ComputeIfftParams {
    /// Parameters of FFT stage `stage` of a transform of `n_s` points.
    pub fn new(n_s: u32, stage: u32) -> (r: Self)
        ensures
            r.n_s == n_s,
            r.stage == stage,
            r._p@ == seq![0u32, 0u32],
    {
        ComputeIfftParams { n_s, stage, _p: [0, 0] }
    }
}

/// Number of workgroups that cover `items` invocations: `ceil(items / WORKGROUP_SIZE_X)`.
pub open spec fn workgroups_spec(items: nat) -> nat {
    num_chunks(items, WORKGROUP_SIZE_X as nat)
}

/// Number of workgroups of `WORKGROUP_SIZE_X` invocations needed for
/// `items` invocations.
pub fn workgroups(items: u32) -> (r: u32)
    ensures
        r == workgroups_spec(items as nat),
        r * WORKGROUP_SIZE_X >= items,
        r > 0 ==> (r - 1) * WORKGROUP_SIZE_X < items,
{
    items / WORKGROUP_SIZE_X + if items % WORKGROUP_SIZE_X == 0 { 0 } else { 1 }
}

/// Number of trailing zero bits of a 32-bit word (32 for zero).
pub open spec fn trailing_zero_bits(n: nat) -> nat
    decreases n,
{
    if n == 0 {
        32
    } else if n % 2 == 1 {
        0
    } else {
        1 + trailing_zero_bits(n / 2)
    }
}

/// Number of radix-2 stages the inverse FFT runs on `num_bins` points: the
/// number of trailing zero bits of `num_bins`.
pub fn ifft_stage_count(num_bins: u32) -> (r: u32)
    ensures
        r == trailing_zero_bits(num_bins as nat),
{
    if num_bins == 0 {
        return 32;
    }
    let mut m: u32 = num_bins;
    let mut count: u32 = 0;
    proof {
        lemma2_to64();
    }
    while m % 2 == 0
        invariant
            m > 0,
            count < 32,
            count + trailing_zero_bits(m as nat) == trailing_zero_bits(num_bins as nat),
            m * pow2(count as nat) == num_bins,
        decreases m,
    {
        proof {
            lemma_pow2_unfold((count + 1) as nat);
            assert((m / 2) * pow2((count + 1) as nat) == num_bins) by (nonlinear_arith)
                requires m % 2 == 0, m * pow2(count as nat) == num_bins, pow2((count + 1) as nat) == 2 * pow2(count as nat);
            lemma_pow2_bound((count + 1) as nat, (m / 2) as nat, num_bins as nat);
        }
        m = m / 2;
        count = count + 1;
    }
    count
}

/// If `m * 2^k` is a 32-bit word and `m > 0`, then `k < 32`.
proof fn lemma_pow2_bound(k: nat, m: nat, n: nat)
    requires
        m > 0,
        m * pow2(k) == n,
        n <= u32::MAX,
    ensures
        k < 32,
{
    if k >= 32 {
        lemma2_to64();
        vstd::arithmetic::power2::lemma_pow2_adds(32, (k - 32) as nat);
        vstd::arithmetic::power2::lemma_pow2_pos((k - 32) as nat);
        assert(pow2(k) >= pow2(32)) by (nonlinear_arith)
            requires pow2(k) == pow2(32) * pow2((k - 32) as nat), pow2((k - 32) as nat) >= 1, pow2(32) > 0;
        assert(m * pow2(k) >= pow2(k)) by (nonlinear_arith)
            requires m >= 1, pow2(k) >= 0;
    }
}

/// For a power of two `n`, `2^(trailing zero bits of n) == n`: the inverse
/// FFT runs exactly `log2(n)` stages.
pub proof fn lemma_stage_count_of_power_of_two(n: nat)
    requires
        is_power_of_two_spec(n),
        n <= u32::MAX,
    ensures
        pow2(trailing_zero_bits(n)) == n,
{
    let k = choose|k: nat| #[trigger] pow2(k) == n;
    lemma_trailing_zeros_of_pow2(k);
}

proof fn lemma_trailing_zeros_of_pow2(k: nat)
    requires
        pow2(k) <= u32::MAX,
    ensures
        trailing_zero_bits(pow2(k)) == k,
    decreases k,
{
    vstd::arithmetic::power2::lemma_pow2_pos(k);
    if k == 0 {
        lemma2_to64();
    } else {
        lemma_pow2_unfold(k);
        vstd::arithmetic::power2::lemma_pow2_pos((k - 1) as nat);
        assert(pow2(k) % 2 == 0);
        assert(pow2(k) / 2 == pow2((k - 1) as nat));
        lemma_trailing_zeros_of_pow2((k - 1) as nat);
    }
}

/// One of the two spectra buffers between which the FFT stages alternate.
#[derive(Clone, Copy, Debug, PartialEq, Eq)]
pub enum SpectraBuffer {
    First,
    Second,
}

/// One stage of the inverse FFT: its uniform parameters, the buffer it reads,
/// the buffer it writes, and whether its output is then copied to the
/// read-back buffer.
#[derive(Clone, Copy, Debug)]
pub struct IfftStage {
    pub params: ComputeIfftParams,
    pub input: SpectraBuffer,
    pub output: SpectraBuffer,
    pub copy_to_readback: bool,
}

/// Buffer read by stage `k`: the stages ping-pong, starting from the first buffer.
pub open spec fn stage_input(k: nat) -> SpectraBuffer {
    if k % 2 == 0 { SpectraBuffer::First } else { SpectraBuffer::Second }
}

/// Buffer written by stage `k`: the other one.
pub open spec fn stage_output(k: nat) -> SpectraBuffer {
    if k % 2 == 0 { SpectraBuffer::Second } else { SpectraBuffer::First }
}

/// `s` is stage `k` of the `count` stages of a transform of `n` points.
pub open spec fn is_ifft_stage(s: IfftStage, n: u32, k: nat, count: nat) -> bool {
    &&& s.params.n_s == n
    &&& s.params.stage == k
    &&& s.params._p@ == seq![0u32, 0u32]
    &&& s.input == stage_input(k)
    &&& s.output == stage_output(k)
    &&& s.copy_to_readback == (k + 1 == count)
}

/// The stages of the inverse FFT of `num_bins` points: one per trailing zero
/// bit of `num_bins`, alternating between the two spectra buffers; the last
/// stage's output is copied to the read-back buffer.
pub fn ifft_schedule(num_bins: u32) -> (r: Vec<IfftStage>)
    ensures
        r.len() == trailing_zero_bits(num_bins as nat),
        forall|k: int| 0 <= k < r.len() ==> is_ifft_stage(#[trigger] r[k], num_bins, k as nat, r.len() as nat),
        forall|k: int| 0 <= k < r.len() - 1 ==> (#[trigger] r[k]).output == r[k + 1].input,
        forall|k: int| 0 <= k < r.len() ==> (#[trigger] r[k]).input != r[k].output,
{
    let log_n = ifft_stage_count(num_bins);
    let mut stages: Vec<IfftStage> = Vec::new();
    let mut ping = SpectraBuffer::First;
    let mut pong = SpectraBuffer::Second;
    let mut stage: u32 = 0;
    while stage < log_n
        invariant
            stage <= log_n,
            log_n == trailing_zero_bits(num_bins as nat),
            stages.len() == stage,
            ping == stage_input(stage as nat),
            pong == stage_output(stage as nat),
            forall|k: int| 0 <= k < stages.len() ==> is_ifft_stage(#[trigger] stages[k], num_bins, k as nat, log_n as nat),
        decreases log_n - stage,
    {
        let params = ComputeIfftParams::new(num_bins, stage);
        stages.push(IfftStage { params, input: ping, output: pong, copy_to_readback: stage == log_n - 1 });
        let swapped = ping;
        ping = pong;
        pong = swapped;
        stage = stage + 1;
    }
    stages
}

/// The sources `source_offset..source_offset + tile_size` uploaded in one
/// tile, and their phases `phase_offset..phase_offset + phase_len` in the
/// flat source phase buffer.
#[derive(Clone, Copy, Debug, PartialEq, Eq)]
pub struct SourceTile {
    pub source_offset: u32,
    pub tile_size: u32,
    pub phase_offset: usize,
    pub phase_len: usize,
}

/// Number of tiles dispatched for `num_sources` sources: `ceil(num_sources / GPU_TILE_SIZE)`,
/// and one (empty) tile when there is no source.
pub open spec fn tile_count(num_sources: nat) -> nat {
    let n = num_chunks(num_sources, GPU_TILE_SIZE as nat);
    if n == 0 { 1 } else { n }
}

/// `t` is tile `k` of the tiles of `num_sources` sources with `num_bins`
/// phases per source.
pub open spec fn is_source_tile(t: SourceTile, num_sources: nat, num_bins: nat, k: nat) -> bool {
    let offset = k * GPU_TILE_SIZE;
    let rest = num_sources - offset;
    let size = if rest < GPU_TILE_SIZE { rest } else { GPU_TILE_SIZE as int };
    &&& t.source_offset == offset
    &&& t.tile_size == size
    &&& t.phase_offset == offset * num_bins
    &&& t.phase_len == size * num_bins
}

/// Splits `num_sources` sources into tiles of at most `GPU_TILE_SIZE`
/// consecutive sources (at least one tile, empty when there is no source),
/// together with the range of their phases, `num_bins` per source.
pub fn source_tiles(num_sources: u32, num_bins: u32) -> (r: Vec<SourceTile>)
    requires
        num_sources * num_bins <= usize::MAX,
    ensures
        r.len() == tile_count(num_sources as nat),
        forall|k: int| 0 <= k < r.len() ==> is_source_tile(#[trigger] r[k], num_sources as nat, num_bins as nat, k as nat),
        forall|k: int| 0 <= k < r.len() ==> (#[trigger] r[k]).tile_size <= GPU_TILE_SIZE,
        r[0].source_offset == 0,
        r[r.len() - 1].source_offset + r[r.len() - 1].tile_size == num_sources,
        r[0].phase_offset == 0,
        r[r.len() - 1].phase_offset + r[r.len() - 1].phase_len == num_sources * num_bins,
        forall|k: int| 0 <= k < r.len() - 1 ==> (#[trigger] r[k]).source_offset + r[k].tile_size == r[k + 1].source_offset,
        forall|k: int| 0 <= k < r.len() - 1 ==> (#[trigger] r[k]).phase_offset + r[k].phase_len == r[k + 1].phase_offset,
{
    let ghost n = num_sources as nat;
    let ghost b = num_bins as nat;
    let whole = num_sources / GPU_TILE_SIZE + if num_sources % GPU_TILE_SIZE == 0 { 0 } else { 1 };
    let num_tiles = if whole == 0 { 1 } else { whole };
    proof {
        crate::chunks::lemma_chunk_starts_inside(0, n, GPU_TILE_SIZE as nat);
        assert(whole == num_chunks(n, GPU_TILE_SIZE as nat));
    }
    let mut tiles: Vec<SourceTile> = Vec::new();
    let mut tile: u32 = 0;
    while tile < num_tiles
        invariant
            tile <= num_tiles,
            num_tiles == tile_count(n),
            whole == num_chunks(n, GPU_TILE_SIZE as nat),
            n == num_sources,
            b == num_bins,
            num_sources * num_bins <= usize::MAX,
            tiles.len() == tile,
            forall|k: int| 0 <= k < tiles.len() ==> is_source_tile(#[trigger] tiles[k], n, b, k as nat),
        decreases num_tiles - tile,
    {
        proof {
            crate::chunks::lemma_chunk_starts_inside(tile as nat, n, GPU_TILE_SIZE as nat);
            if whole == 0 {
                assert(tile == 0);
            }
            assert(tile * GPU_TILE_SIZE <= n);
        }
        let source_offset = tile * GPU_TILE_SIZE;
        let rest = num_sources - source_offset;
        let tile_size = if rest < GPU_TILE_SIZE { rest } else { GPU_TILE_SIZE };
        proof {
            lemma_mul_inequality(source_offset as int, n as int, b as int);
            lemma_mul_inequality((source_offset + tile_size) as int, n as int, b as int);
            lemma_mul_inequality(tile_size as int, n as int, b as int);
        }
        let phase_offset = source_offset as usize * num_bins as usize;
        let phase_len = tile_size as usize * num_bins as usize;
        tiles.push(SourceTile { source_offset, tile_size, phase_offset, phase_len });
        tile = tile + 1;
    }
    proof {
        let len = tiles.len() as nat;
        assert(is_source_tile(tiles[0], n, b, 0));
        assert(is_source_tile(tiles[len - 1], n, b, (len - 1) as nat));
        crate::chunks::lemma_chunk_starts_inside(len, n, GPU_TILE_SIZE as nat);
        crate::chunks::lemma_chunk_starts_inside((len - 1) as nat, n, GPU_TILE_SIZE as nat);
        lemma_mul_is_distributive_add_other_way(GPU_TILE_SIZE as int, (len - 1) as int, 1);
        lemma_mul_is_distributive_add_other_way(b as int, tiles[len - 1].source_offset as int, tiles[len - 1].tile_size as int);
        assert(0 * b == 0);
        assert forall|k: int| 0 <= k < tiles.len() - 1 implies
            (#[trigger] tiles[k]).source_offset + tiles[k].tile_size == tiles[k + 1].source_offset
            && tiles[k].phase_offset + tiles[k].phase_len == tiles[k + 1].phase_offset by {
            assert(is_source_tile(tiles[k], n, b, k as nat));
            assert(is_source_tile(tiles[k + 1], n, b, (k + 1) as nat));
            crate::chunks::lemma_chunk_starts_inside((k + 1) as nat, n, GPU_TILE_SIZE as nat);
            lemma_mul_is_distributive_add_other_way(GPU_TILE_SIZE as int, k, 1);
            lemma_mul_is_distributive_add_other_way(b as int, k * GPU_TILE_SIZE, GPU_TILE_SIZE as int);
        }
    }
    tiles
}

/// Sizes in bytes of the GPU runtime's buffers.
#[derive(Clone, Copy, Debug, PartialEq, Eq)]
pub struct GpuBufferSizes {
    /// One receiver record per antenna.
    pub receivers: u64,
    /// One source record per source of a tile.
    pub sources_tile: u64,
    /// One phase per source of a tile and spectrum bin.
    pub phases_tile: u64,
    /// The larger of the two uniform parameter blocks.
    pub params: u64,
    /// One complex sample per antenna and spectrum bin; the size of each of
    /// the two spectra buffers and of the read-back buffer.
    pub spectra: u64,
}

/// The buffer sizes for `num_antennas` antennas, spectra of
/// `sample_window_size * frequency_resolution` bins, and the given record sizes.
pub open spec fn gpu_buffer_sizes_spec(
    num_antennas: nat,
    sample_window_size: nat,
    frequency_resolution: nat,
    receiver_bytes: nat,
    source_bytes: nat,
    spectra_params_bytes: nat,
    ifft_params_bytes: nat,
) -> GpuBufferSizes {
    GpuBufferSizes {
        receivers: (num_antennas * receiver_bytes) as u64,
        sources_tile: (GPU_TILE_SIZE * source_bytes) as u64,
        phases_tile: (GPU_TILE_SIZE * sample_window_size * frequency_resolution * PHASE_BYTES) as u64,
        params: (if spectra_params_bytes < ifft_params_bytes { ifft_params_bytes } else { spectra_params_bytes }) as u64,
        spectra: (num_antennas * sample_window_size * frequency_resolution * COMPLEX_SAMPLE_BYTES) as u64,
    }
}

/// Sizes of the buffers that the GPU runtime allocates for an array of
/// `num_antennas` antennas with the given window size and oversampling
/// factor; the record sizes are those of the receiver, source and parameter
/// records as laid out in memory.
pub fn gpu_buffer_sizes(
    num_antennas: usize,
    sample_window_size: usize,
    frequency_resolution: usize,
    receiver_bytes: usize,
    source_bytes: u32,
    spectra_params_bytes: usize,
    ifft_params_bytes: usize,
) -> (r: GpuBufferSizes)
    requires
        num_antennas * receiver_bytes <= usize::MAX,
        GPU_TILE_SIZE * source_bytes <= u32::MAX,
        GPU_TILE_SIZE * sample_window_size <= usize::MAX,
        GPU_TILE_SIZE * sample_window_size * frequency_resolution <= usize::MAX,
        GPU_TILE_SIZE * sample_window_size * frequency_resolution * PHASE_BYTES <= usize::MAX,
        num_antennas * sample_window_size <= usize::MAX,
        num_antennas * sample_window_size * frequency_resolution <= usize::MAX,
        num_antennas * sample_window_size * frequency_resolution * COMPLEX_SAMPLE_BYTES <= usize::MAX,
    ensures
        r.receivers == num_antennas * receiver_bytes,
        r.sources_tile == GPU_TILE_SIZE * source_bytes,
        r.phases_tile == GPU_TILE_SIZE * (sample_window_size * frequency_resolution) * PHASE_BYTES,
        r.params == (if spectra_params_bytes < ifft_params_bytes { ifft_params_bytes } else { spectra_params_bytes }),
        r.spectra == num_antennas * (sample_window_size * frequency_resolution) * COMPLEX_SAMPLE_BYTES,
        r == gpu_buffer_sizes_spec(
            num_antennas as nat,
            sample_window_size as nat,
            frequency_resolution as nat,
            receiver_bytes as nat,
            source_bytes as nat,
            spectra_params_bytes as nat,
            ifft_params_bytes as nat,
        ),
{
    let receivers = (num_antennas * receiver_bytes) as u64;
    let sources_tile = (GPU_TILE_SIZE * source_bytes) as u64;
    let phases_tile = (GPU_TILE_SIZE as usize * sample_window_size * frequency_resolution * PHASE_BYTES) as u64;
    let params = (if spectra_params_bytes < ifft_params_bytes { ifft_params_bytes } else { spectra_params_bytes }) as u64;
    let total_bins = num_antennas * sample_window_size * frequency_resolution;
    let spectra = (total_bins * COMPLEX_SAMPLE_BYTES) as u64;
    proof {
        let bins = sample_window_size * frequency_resolution;
        assert(GPU_TILE_SIZE * sample_window_size * frequency_resolution == GPU_TILE_SIZE * bins) by (nonlinear_arith)
            requires bins == sample_window_size * frequency_resolution;
        assert(num_antennas * sample_window_size * frequency_resolution == num_antennas * bins) by (nonlinear_arith)
            requires bins == sample_window_size * frequency_resolution;
    }
    GpuBufferSizes { receivers, sources_tile, phases_tile, params, spectra }
}

/// The buffers hold what is uploaded into them: the phases of any tile of at
/// most `GPU_TILE_SIZE` sources, one 4-byte phase per source and spectrum
/// bin, fit in the phases tile; the spectra buffers hold one complex sample
/// per antenna and spectrum bin; the receiver buffer one record per antenna.
pub proof fn lemma_buffers_hold_their_contents(
    num_antennas: nat,
    sample_window_size: nat,
    frequency_resolution: nat,
    receiver_bytes: nat,
    source_bytes: nat,
    spectra_params_bytes: nat,
    ifft_params_bytes: nat,
    tile_size: nat,
)
    requires
        tile_size <= GPU_TILE_SIZE,
        num_antennas * receiver_bytes <= usize::MAX,
        GPU_TILE_SIZE * sample_window_size * frequency_resolution * PHASE_BYTES <= usize::MAX,
        num_antennas * sample_window_size * frequency_resolution * COMPLEX_SAMPLE_BYTES <= usize::MAX,
    ensures
        ({
            let sizes = gpu_buffer_sizes_spec(
                num_antennas,
                sample_window_size,
                frequency_resolution,
                receiver_bytes,
                source_bytes,
                spectra_params_bytes,
                ifft_params_bytes,
            );
            let bins = sample_window_size * frequency_resolution;
            &&& tile_size * bins * PHASE_BYTES <= sizes.phases_tile
            &&& GPU_TILE_SIZE * bins * PHASE_BYTES == sizes.phases_tile
            &&& sizes.spectra == num_antennas * bins * COMPLEX_SAMPLE_BYTES
            &&& sizes.receivers == num_antennas * receiver_bytes
        }),
{
    let bins = sample_window_size * frequency_resolution;
    assert(GPU_TILE_SIZE * sample_window_size * frequency_resolution == GPU_TILE_SIZE * bins) by (nonlinear_arith)
        requires bins == sample_window_size * frequency_resolution;
    assert(num_antennas * sample_window_size * frequency_resolution == num_antennas * bins) by (nonlinear_arith)
        requires bins == sample_window_size * frequency_resolution;
    assert(tile_size * bins * PHASE_BYTES <= GPU_TILE_SIZE * bins * PHASE_BYTES) by (nonlinear_arith)
        requires tile_size <= GPU_TILE_SIZE, bins >= 0;
}

/// How the read-back buffer is cut: `n_receivers` blocks of `spectrum_size`
/// complex samples, of which `sample_window_size` are kept.
#[derive(Clone, Copy, Debug, PartialEq, Eq)]
pub struct ReadbackLayout {
    pub n_receivers: usize,
    pub spectrum_size: usize,
    pub sample_window_size: usize,
}

/// The layout recovered from the sizes of the receiver and read-back buffers.
pub open spec fn readback_layout_spec(
    receiver_buffer_size: nat,
    readback_size: nat,
    receiver_bytes: nat,
    frequency_resolution: nat,
) -> ReadbackLayout {
    let n = receiver_buffer_size / receiver_bytes;
    let s = readback_size / (COMPLEX_SAMPLE_BYTES as nat) / n;
    ReadbackLayout {
        n_receivers: n as usize,
        spectrum_size: s as usize,
        sample_window_size: (s / frequency_resolution) as usize,
    }
}

/// Recovers, from the sizes of the receiver buffer and of the read-back
/// buffer, the number of antennas, the spectrum size per antenna and the
/// number of samples kept per antenna.
pub fn readback_layout(
    receiver_buffer_size: u64,
    readback_size: u64,
    receiver_bytes: usize,
    frequency_resolution: usize,
) -> (r: ReadbackLayout)
    requires
        receiver_buffer_size <= usize::MAX,
        readback_size <= usize::MAX,
        receiver_bytes > 0,
        frequency_resolution > 0,
        receiver_buffer_size as nat / receiver_bytes as nat > 0,
    ensures
        r == readback_layout_spec(
            receiver_buffer_size as nat,
            readback_size as nat,
            receiver_bytes as nat,
            frequency_resolution as nat,
        ),
{
    let n_receivers = receiver_buffer_size as usize / receiver_bytes;
    let spectrum_size = readback_size as usize / COMPLEX_SAMPLE_BYTES / n_receivers;
    let sample_window_size = spectrum_size / frequency_resolution;
    ReadbackLayout { n_receivers, spectrum_size, sample_window_size }
}

/// The read-back layout recovers the dimensions that the buffers were sized
/// for: `num_antennas` receivers, spectra of `sample_window_size *
/// frequency_resolution` bins, and `sample_window_size` samples kept each.
pub proof fn lemma_readback_layout_recovers_dimensions(
    num_antennas: nat,
    sample_window_size: nat,
    frequency_resolution: nat,
    receiver_bytes: nat,
    source_bytes: nat,
    spectra_params_bytes: nat,
    ifft_params_bytes: nat,
)
    requires
        num_antennas > 0,
        receiver_bytes > 0,
        frequency_resolution > 0,
        num_antennas * receiver_bytes <= usize::MAX,
        num_antennas * sample_window_size * frequency_resolution * COMPLEX_SAMPLE_BYTES <= usize::MAX,
    ensures
        ({
            let sizes = gpu_buffer_sizes_spec(
                num_antennas,
                sample_window_size,
                frequency_resolution,
                receiver_bytes,
                source_bytes,
                spectra_params_bytes,
                ifft_params_bytes,
            );
            readback_layout_spec(sizes.receivers as nat, sizes.spectra as nat, receiver_bytes, frequency_resolution)
                == ReadbackLayout {
                n_receivers: num_antennas as usize,
                spectrum_size: (sample_window_size * frequency_resolution) as usize,
                sample_window_size: sample_window_size as usize,
            }
        }),
{
    let n = num_antennas;
    let sws = sample_window_size;
    let fr = frequency_resolution;
    let bins = sws * fr;
    assert(n * sws * fr == n * bins) by (nonlinear_arith)
        requires bins == sws * fr;
    assert(n * receiver_bytes / receiver_bytes == n) by (nonlinear_arith)
        requires receiver_bytes > 0;
    assert(n * bins * 8 / 8 == n * bins) by (nonlinear_arith);
    assert(n * bins / n == bins) by (nonlinear_arith)
        requires n > 0;
    assert(bins / fr == sws) by (nonlinear_arith)
        requires fr > 0, bins == sws * fr;
    assert(n * bins <= usize::MAX) by (nonlinear_arith)
        requires n * bins * 8 <= usize::MAX, n * bins >= 0;
    assert(bins <= n * bins) by (nonlinear_arith)
        requires n > 0, bins >= 0;
}

/// Pairs every item of `paired` with the item of `cycled` at the same
/// position, `cycled` being repeated as often as needed: item `k` of the
/// result is `(paired[k], cycled[k % cycled.len()])`. Nothing is paired when
/// `cycled` is empty.
pub fn pair_with_cycled<T: Copy>(cycled: &[T], paired: &[T]) -> (r: Vec<(T, T)>)
    ensures
        cycled@.len() == 0 ==> r@.len() == 0,
        cycled@.len() > 0 ==> r@.len() == paired@.len(),
        forall|k: int| 0 <= k < r@.len() ==> (#[trigger] r@[k]) == (paired@[k], cycled@[k % cycled@.len() as int]),
{
    let mut out: Vec<(T, T)> = Vec::new();
    if cycled.len() == 0 {
        return out;
    }
    let mut j: usize = 0;
    let mut k: usize = 0;
    while k < paired.len()
        invariant
            cycled@.len() > 0,
            k <= paired@.len(),
            j < cycled@.len(),
            j == (k as int) % (cycled@.len() as int),
            out@.len() == k,
            forall|i: int| 0 <= i < out@.len() ==> (#[trigger] out@[i]) == (paired@[i], cycled@[i % cycled@.len() as int]),
        decreases paired@.len() - k,
    {
        out.push((paired[k], cycled[j]));
        proof {
            let c = cycled@.len() as int;
            let q = (k as int) / c;
            vstd::arithmetic::div_mod::lemma_fundamental_div_mod(k as int, c);
            assert(k + 1 == c * q + (j + 1));
            vstd::arithmetic::div_mod::lemma_mod_multiples_vanish(q, (j + 1) as int, c);
            if j + 1 < c {
                vstd::arithmetic::div_mod::lemma_small_mod((j + 1) as nat, c as nat);
            } else {
                vstd::arithmetic::div_mod::lemma_mod_self_0(c);
            }
        }
        j = if j + 1 == cycled.len() { 0 } else { j + 1 };
        k = k + 1;
    }
    out
}

} // verus!
