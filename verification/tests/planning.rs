use fringe::{
    bandpass_bin_range, centered_window, chunk_ranges, fft_bin_index, is_power_of_two, phase_layout,
    row_major, take_active_workers, worker_ranges, NUM_WORKERS,
};

#[test]
fn power_of_two_accepts_powers() {
    for k in 0..usize::BITS {
        assert!(is_power_of_two(1usize << k));
    }
}

#[test]
fn power_of_two_refuses_others() {
    assert!(!is_power_of_two(0));
    assert!(!is_power_of_two(3));
    assert!(!is_power_of_two(6));
    assert!(!is_power_of_two(12));
    assert!(!is_power_of_two(usize::MAX));
    for n in 1..2000usize {
        assert_eq!(is_power_of_two(n), n.is_power_of_two());
    }
}

#[test]
fn worker_ranges_of_no_antenna_is_empty() {
    assert!(worker_ranges(0, 64).is_empty());
}

#[test]
fn worker_ranges_split_evenly() {
    let r = worker_ranges(25, 8);
    // ceil(25 / 10) = 3 antennas per worker, nine workers
    assert_eq!(r.len(), 9);
    assert_eq!((r[0].antenna_start, r[0].antenna_end), (0, 3));
    assert_eq!((r[7].antenna_start, r[7].antenna_end), (21, 24));
    assert_eq!((r[8].antenna_start, r[8].antenna_end), (24, 25));
    assert_eq!((r[8].phase_start, r[8].phase_end), (192, 200));
}

#[test]
fn worker_ranges_cover_all_antennas() {
    for n in 1..120usize {
        let r = worker_ranges(n, 4);
        assert!(r.len() <= NUM_WORKERS);
        assert_eq!(r[0].antenna_start, 0);
        assert_eq!(r[r.len() - 1].antenna_end, n);
        assert_eq!(r[r.len() - 1].phase_end, 4 * n);
        for w in r.windows(2) {
            assert_eq!(w[0].antenna_end, w[1].antenna_start);
            assert_eq!(w[0].phase_end, w[1].phase_start);
        }
        for x in &r {
            assert!(x.antenna_start < x.antenna_end);
        }
    }
}

#[test]
fn worker_ranges_fewer_antennas_than_workers() {
    let r = worker_ranges(3, 2);
    assert_eq!(r.len(), 3);
    assert_eq!((r[2].antenna_start, r[2].antenna_end), (2, 3));
}

#[test]
fn chunk_ranges_match_slice_chunks() {
    let data: Vec<u32> = (0..23).collect();
    for chunk in 1..9usize {
        for max in 0..6usize {
            let expected: Vec<(usize, usize)> = data
                .chunks(chunk)
                .zip(0..max)
                .map(|(c, _)| {
                    let start = c.as_ptr() as usize - data.as_ptr() as usize;
                    let start = start / std::mem::size_of::<u32>();
                    (start, start + c.len())
                })
                .collect();
            assert_eq!(chunk_ranges(data.len(), chunk, max), expected);
        }
    }
}

#[test]
fn chunk_ranges_of_empty_buffer() {
    assert!(chunk_ranges(0, 4, 10).is_empty());
}

#[test]
fn chunk_ranges_last_block_is_short() {
    assert_eq!(chunk_ranges(10, 4, 100), vec![(0, 4), (4, 8), (8, 10)]);
}

#[test]
fn fft_bin_index_values() {
    assert_eq!(fft_bin_index(8, 0), 0);
    assert_eq!(fft_bin_index(8, 3), 3);
    assert_eq!(fft_bin_index(8, 4), -4);
    assert_eq!(fft_bin_index(8, 7), -1);
    assert_eq!(fft_bin_index(5, 1), 1);
    assert_eq!(fft_bin_index(5, 2), -3);
    assert_eq!(fft_bin_index(5, 4), -1);
    assert_eq!(fft_bin_index(1, 0), -1);
}

#[test]
fn fft_bin_index_is_injective() {
    for n in 1..40usize {
        let mut seen: Vec<i64> = (0..n).map(|b| fft_bin_index(n, b)).collect();
        seen.sort();
        seen.dedup();
        assert_eq!(seen.len(), n);
    }
}

#[test]
fn bandpass_range_matches_take_skip() {
    for min in 0..12usize {
        for max in 0..12usize {
            for slen in 0..10usize {
                for plen in [0usize, 3, 9, 20] {
                    let expected: Vec<usize> = (0..slen)
                        .zip(0..plen)
                        .take(max + 1)
                        .skip(min)
                        .map(|(i, _)| i)
                        .collect();
                    let (a, b) = bandpass_bin_range(min, max, slen, plen);
                    let got: Vec<usize> = (a..b).collect();
                    assert_eq!(got, expected);
                }
            }
        }
    }
}

#[test]
fn phase_layout_sizes() {
    let l = phase_layout(1024, 4, 16, 3);
    assert_eq!(l.num_spectrum_bins, 4096);
    assert_eq!(l.num_system_noise_phases, 16 * 4096);
    assert_eq!(l.num_source_phases, 3 * 4096);
}

#[test]
fn centered_window_keeps_middle() {
    let s: Vec<u8> = (0..10).collect();
    assert_eq!(centered_window(&s, 4), vec![3, 4, 5, 6]);
    assert_eq!(centered_window(&s, 5), vec![2, 3, 4, 5, 6]);
    assert_eq!(centered_window(&s, 10), s);
    assert!(centered_window(&s, 0).is_empty());
}

#[test]
fn centered_window_of_oversampled_block() {
    let s: Vec<u32> = (0..16).collect();
    assert_eq!(centered_window(&s, 4), vec![6, 7, 8, 9]);
}

#[test]
fn row_major_flattens_rows() {
    let rows = vec![vec![1, 2, 3], vec![4, 5, 6]];
    let (r, c, flat) = row_major(&rows);
    assert_eq!((r, c), (2, 3));
    assert_eq!(flat, vec![1, 2, 3, 4, 5, 6]);
}

#[test]
fn row_major_uses_first_row_length() {
    let rows = vec![vec![1], vec![2, 3]];
    let (r, c, flat) = row_major(&rows);
    assert_eq!((r, c), (2, 1));
    assert_eq!(flat, vec![1, 2, 3]);
}

#[test]
fn take_active_workers_stops_at_first_vacant_slot() {
    let mut slots = vec![Some(1), Some(2), None, Some(4)];
    assert_eq!(take_active_workers(&mut slots), vec![1, 2]);
    assert_eq!(slots, vec![None, None, None, Some(4)]);
}

#[test]
fn take_active_workers_all_started() {
    let mut slots = vec![Some("a"), Some("b")];
    assert_eq!(take_active_workers(&mut slots), vec!["a", "b"]);
    assert_eq!(slots, vec![None, None]);
    assert!(take_active_workers(&mut slots).is_empty());
}
