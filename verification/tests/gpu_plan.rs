use fringe::{
    gpu_buffer_sizes, ifft_schedule, ifft_stage_count, pair_with_cycled, readback_layout, source_tiles,
    workgroups, ComputeIfftParams, SpectraBuffer, GPU_TILE_SIZE,
};

#[test]
fn ifft_params_new() {
    let p = ComputeIfftParams::new(4096, 3);
    assert_eq!(p.n_s, 4096);
    assert_eq!(p.stage, 3);
    assert_eq!(p._p, [0, 0]);
}

#[test]
fn workgroup_counts() {
    assert_eq!(workgroups(0), 0);
    assert_eq!(workgroups(1), 1);
    assert_eq!(workgroups(256), 1);
    assert_eq!(workgroups(257), 2);
    assert_eq!(workgroups(4096), 16);
    assert_eq!(workgroups(u32::MAX), u32::MAX.div_ceil(256));
}

#[test]
fn stage_count_is_trailing_zeros() {
    for n in [0u32, 1, 2, 3, 8, 12, 4096, 1 << 31, u32::MAX] {
        assert_eq!(ifft_stage_count(n), n.trailing_zeros());
    }
}

#[test]
fn ifft_schedule_ping_pongs() {
    let s = ifft_schedule(16);
    assert_eq!(s.len(), 4);
    for (k, st) in s.iter().enumerate() {
        assert_eq!(st.params.n_s, 16);
        assert_eq!(st.params.stage, k as u32);
        assert_eq!(st.copy_to_readback, k == 3);
        assert_ne!(st.input, st.output);
    }
    assert_eq!(s[0].input, SpectraBuffer::First);
    assert_eq!(s[0].output, SpectraBuffer::Second);
    assert_eq!(s[1].input, SpectraBuffer::Second);
    assert_eq!(s[3].output, SpectraBuffer::First);
}

#[test]
fn ifft_schedule_of_single_bin_is_empty() {
    assert!(ifft_schedule(1).is_empty());
}

#[test]
fn source_tiles_without_sources() {
    let t = source_tiles(0, 64);
    assert_eq!(t.len(), 1);
    assert_eq!((t[0].source_offset, t[0].tile_size, t[0].phase_offset, t[0].phase_len), (0, 0, 0, 0));
}

#[test]
fn source_tiles_split_by_tile_size() {
    let t = source_tiles(2500, 8);
    assert_eq!(t.len(), 3);
    assert_eq!((t[0].source_offset, t[0].tile_size), (0, GPU_TILE_SIZE));
    assert_eq!((t[1].source_offset, t[1].tile_size), (1024, 1024));
    assert_eq!((t[2].source_offset, t[2].tile_size), (2048, 452));
    assert_eq!((t[2].phase_offset, t[2].phase_len), (2048 * 8, 452 * 8));
}

#[test]
fn source_tiles_exact_multiple() {
    let t = source_tiles(2048, 2);
    assert_eq!(t.len(), 2);
    assert_eq!(t[1].source_offset + t[1].tile_size, 2048);
}

#[test]
fn buffer_sizes_for_array() {
    let s = gpu_buffer_sizes(16, 1024, 4, 32, 48, 48, 16);
    assert_eq!(s.receivers, 16 * 32);
    assert_eq!(s.sources_tile, 1024 * 48);
    assert_eq!(s.phases_tile, 1024 * 1024 * 4 * 4);
    assert_eq!(s.params, 48);
    assert_eq!(s.spectra, 16 * 1024 * 4 * 8);
    let s = gpu_buffer_sizes(1, 1, 1, 32, 48, 16, 48);
    assert_eq!(s.params, 48);
}

#[test]
fn readback_layout_round_trip() {
    let s = gpu_buffer_sizes(16, 1024, 4, 32, 48, 48, 16);
    let l = readback_layout(s.receivers, s.spectra, 32, 4);
    assert_eq!(l.n_receivers, 16);
    assert_eq!(l.spectrum_size, 4096);
    assert_eq!(l.sample_window_size, 1024);
}

#[test]
fn pair_with_cycled_repeats_short_side() {
    let cal = [10u8, 20];
    let noise = [1u8, 2, 3, 4, 5];
    assert_eq!(
        pair_with_cycled(&cal, &noise),
        vec![(1, 10), (2, 20), (3, 10), (4, 20), (5, 10)]
    );
}

#[test]
fn pair_with_cycled_empty_cycle() {
    let noise = [1u8, 2, 3];
    assert!(pair_with_cycled(&[], &noise).is_empty());
}

#[test]
fn pair_with_cycled_matches_iterators() {
    let cal: Vec<u16> = (0..7).collect();
    let noise: Vec<u16> = (100..130).collect();
    let expected: Vec<(u16, u16)> = cal.iter().cycle().zip(noise.clone()).map(|(i, r)| (r, *i)).collect();
    assert_eq!(pair_with_cycled(&cal, &noise), expected);
}
