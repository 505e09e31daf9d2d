//! Verified planning logic of the `fringe` antenna-array signal simulator.
//!
//! The simulator synthesises, for every antenna of an array, a frequency
//! spectrum and turns it into time-domain samples. Everything that decides
//! *which* numbers are computed where (window sizes, FFT schedules, how the
//! antennas are split among workers, how sources are tiled for the GPU, which
//! bins fall in the bandpass, which samples are kept) lives here, with its
//! contract. The floating-point signal model and the device and file plumbing
//! are driven from `app/`.

pub mod chunks;
pub mod gpu;
pub mod partition;
pub mod power;
pub mod runtime_kind;
pub mod seed;
pub mod spectrum;
pub mod window;

pub use chunks::chunk_ranges;
pub use gpu::{
    gpu_buffer_sizes, ifft_schedule, ifft_stage_count, pair_with_cycled, readback_layout, source_tiles,
    workgroups, ComputeIfftParams, GpuBufferSizes, IfftStage, ReadbackLayout, SourceTile, SpectraBuffer,
    GPU_TILE_SIZE, WORKGROUP_SIZE_X,
};
pub use partition::{take_active_workers, worker_ranges, WorkerRange, NUM_WORKERS};
pub use power::is_power_of_two;
pub use runtime_kind::{parse_runtime, RuntimeKind};
pub use seed::resolve_seed;
pub use spectrum::{bandpass_bin_range, fft_bin_index, phase_layout, PhaseLayout, DEFAULT_FREQUENCY_RESOLUTION};
pub use window::{centered_window, row_major};

