# fringe

Simulator of the time-domain signals received by the antennas of an
interferometric array: for each antenna a frequency spectrum is synthesised
from receiver noise, an optional calibrator and a sky model of sources, and
turned into samples by an oversampled inverse FFT, on the CPU (worker
threads) or on the GPU (compute shaders).

- `src/` is the verified library (Verus): the integer planning of a run.
  - `power` — power-of-two window sizes and oversampling factors;
  - `runtime_kind` — reading the backend name (`cpu` / `gpu`);
  - `seed` — the seed of the random phase generator;
  - `partition` — splitting the antennas among the CPU workers, collecting
    the started workers;
  - `chunks` — cutting flat phase and sample buffers into per-antenna or
    per-source blocks;
  - `spectrum` — signed FFT bin indices, bandpass bins, phase buffer sizes;
  - `gpu` — GPU buffer sizes, source tiles, workgroup counts, the inverse
    FFT stage schedule, the read-back layout;
  - `window` — the centred sample window kept per antenna, row-major output.
- `app/` is the program around it: the floating-point signal model, the
  CPU and GPU runtimes, the JSON/CSV/HDF5 files, the command line and the
  Python bindings. The GPU runtime reads its WGSL shaders from `shaders/`
  in the working directory.
- `tests/` exercises the library on concrete values.
