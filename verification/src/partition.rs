//! How the CPU runtime splits the antennas of an array among its worker
//! threads.

use vstd::arithmetic::mul::{lemma_mul_inequality, lemma_mul_is_distributive_add_other_way};
use vstd::prelude::*;

verus! {

/// Number of worker threads that share the antennas of an array.
pub const NUM_WORKERS: usize = 10;

/// The share of one worker: the antennas `antenna_start..antenna_end` and,
/// in the flat system-noise phase buffer (one block of `spectrum_size`
/// phases per antenna), the phases `phase_start..phase_end`.
#[derive(Clone, Copy, Debug, PartialEq, Eq)]
pub struct WorkerRange {
    pub antenna_start: usize,
    pub antenna_end: usize,
    pub phase_start: usize,
    pub phase_end: usize,
}

/// Antennas per worker: `ceil(num_antennas / NUM_WORKERS)`.
pub open spec fn antennas_per_worker(num_antennas: nat) -> nat {
    ((num_antennas + NUM_WORKERS - 1) / (NUM_WORKERS as int)) as nat
}

/// First antenna of worker `k`.
pub open spec fn worker_start(num_antennas: nat, k: nat) -> nat {
    k * antennas_per_worker(num_antennas)
}

/// One past the last antenna of worker `k`.
pub open spec fn worker_end(num_antennas: nat, k: nat) -> nat {
    let e = (k + 1) * antennas_per_worker(num_antennas);
    if e < num_antennas { e } else { num_antennas }
}

/// `r` is the share of worker `k`.
pub open spec fn is_worker_range(r: WorkerRange, num_antennas: nat, spectrum_size: nat, k: nat) -> bool {
    &&& r.antenna_start == worker_start(num_antennas, k)
    &&& r.antenna_end == worker_end(num_antennas, k)
    &&& r.phase_start == worker_start(num_antennas, k) * spectrum_size
    &&& r.phase_end == worker_end(num_antennas, k) * spectrum_size
}

proof fn lemma_per_worker_bound(n: nat)
    ensures
        NUM_WORKERS * antennas_per_worker(n) >= n,
        NUM_WORKERS * antennas_per_worker(n) <= n + NUM_WORKERS - 1,
        n > 0 ==> antennas_per_worker(n) > 0,
{
}

/// Splits `num_antennas` antennas among at most `NUM_WORKERS` workers.
///
/// Worker `k` gets `antennas_per_worker` consecutive antennas starting at
/// `k * antennas_per_worker` (the last one possibly fewer); workers whose
/// share would be empty get no range. The ranges are non-empty, follow one
/// another without gap, start at antenna 0 and end at `num_antennas`.
pub fn worker_ranges(num_antennas: usize, spectrum_size: usize) -> (r: Vec<WorkerRange>)
    requires
        num_antennas <= usize::MAX - NUM_WORKERS,
        num_antennas * spectrum_size <= usize::MAX,
    ensures
        r.len() <= NUM_WORKERS,
        forall|k: int| 0 <= k < r.len() ==> is_worker_range(#[trigger] r[k], num_antennas as nat, spectrum_size as nat, k as nat),
        forall|k: int| 0 <= k < r.len() ==> (#[trigger] r[k]).antenna_start < r[k].antenna_end,
        r.len() == NUM_WORKERS || r.len() * antennas_per_worker(num_antennas as nat) >= num_antennas,
        (r.len() == 0) == (num_antennas == 0),
        r.len() > 0 ==> r[0].antenna_start == 0 && r[r.len() - 1].antenna_end == num_antennas,
        forall|k: int| 0 <= k < r.len() - 1 ==> (#[trigger] r[k]).antenna_end == r[k + 1].antenna_start,
        forall|k: int| 0 <= k < r.len() - 1 ==> (#[trigger] r[k]).phase_end == r[k + 1].phase_start,
        r.len() > 0 ==> r[0].phase_start == 0 && r[r.len() - 1].phase_end == num_antennas * spectrum_size,
{
    let ghost n = num_antennas as nat;
    let ghost ss = spectrum_size as nat;
    let per_worker: usize = num_antennas / NUM_WORKERS + if num_antennas % NUM_WORKERS == 0 { 0 } else { 1 };
    proof {
        lemma_per_worker_bound(n);
        assert(per_worker == antennas_per_worker(n));
    }
    let mut ranges: Vec<WorkerRange> = Vec::new();
    let mut i: usize = 0;
    while i < NUM_WORKERS
        invariant_except_break
            i <= NUM_WORKERS,
        invariant
            per_worker == antennas_per_worker(n),
            n == num_antennas,
            ss == spectrum_size,
            num_antennas <= usize::MAX - NUM_WORKERS,
            num_antennas * spectrum_size <= usize::MAX,
            NUM_WORKERS * per_worker <= n + NUM_WORKERS - 1,
            NUM_WORKERS * per_worker >= n,
            ranges.len() == i,
            i <= NUM_WORKERS,
            forall|k: int| 0 <= k < ranges.len() ==> is_worker_range(#[trigger] ranges[k], n, ss, k as nat),
            forall|k: int| 0 <= k < ranges.len() ==> (#[trigger] ranges[k]).antenna_start < ranges[k].antenna_end,
        ensures
            ranges.len() == NUM_WORKERS || ranges.len() * per_worker >= num_antennas,
        decreases NUM_WORKERS - i,
    {
        proof {
            lemma_mul_inequality((i + 1) as int, NUM_WORKERS as int, per_worker as int);
            lemma_mul_inequality(i as int, (i + 1) as int, per_worker as int);
            lemma_mul_is_distributive_add_other_way(per_worker as int, i as int, 1);
        }
        let start = i * per_worker;
        let next = (i + 1) * per_worker;
        let end = if next < num_antennas { next } else { num_antennas };
        if start >= end {
            break;
        }
        proof {
            lemma_mul_inequality(start as int, n as int, ss as int);
            lemma_mul_inequality(end as int, n as int, ss as int);
        }
        let range = WorkerRange {
            antenna_start: start,
            antenna_end: end,
            phase_start: start * spectrum_size,
            phase_end: end * spectrum_size,
        };
        ranges.push(range);
        i = i + 1;
    }
    proof {
        let len = ranges.len();
        if len > 0 {
            assert(is_worker_range(ranges[len - 1], n, ss, (len - 1) as nat));
            lemma_mul_is_distributive_add_other_way(per_worker as int, (len - 1) as int, 1);
            assert(worker_end(n, (len - 1) as nat) == n);
            assert(is_worker_range(ranges[0], n, ss, 0));
            assert(0 * ss == 0);
        } else if n > 0 {
            assert(per_worker > 0);
            assert(0 * per_worker == 0);
        }
        assert forall|k: int| 0 <= k < len - 1 implies (#[trigger] ranges[k]).antenna_end == ranges[k + 1].antenna_start by {
            assert(is_worker_range(ranges[k], n, ss, k as nat));
            assert(is_worker_range(ranges[k + 1], n, ss, (k + 1) as nat));
            lemma_mul_is_distributive_add_other_way(per_worker as int, k, 1);
        }
    }
    ranges
}

/// Takes the workers that were started, in order: the occupied slots up to
/// the first vacant one, which are left vacant; the slots from the first
/// vacant one on are left as they were.
pub fn take_active_workers<T>(slots: &mut Vec<Option<T>>) -> (r: Vec<T>)
    ensures
        final(slots)@.len() == old(slots)@.len(),
        r@.len() <= old(slots)@.len(),
        forall|k: int| 0 <= k < r@.len() ==> old(slots)@[k] == Some(#[trigger] r@[k]),
        r@.len() < old(slots)@.len() ==> old(slots)@[r@.len() as int] is None,
        forall|k: int| 0 <= k < r@.len() ==> (#[trigger] final(slots)@[k]) is None,
        forall|k: int| r@.len() <= k < old(slots)@.len() ==> #[trigger] final(slots)@[k] == old(slots)@[k],
{
    let ghost initial = slots@;
    let mut taken: Vec<T> = Vec::new();
    let mut i: usize = 0;
    while i < slots.len()
        invariant_except_break
            i <= slots@.len(),
        invariant
            slots@.len() == initial.len(),
            taken@.len() == i,
            forall|k: int| 0 <= k < i ==> initial[k] == Some(#[trigger] taken@[k]),
            forall|k: int| 0 <= k < i ==> (#[trigger] slots@[k]) is None,
            forall|k: int| i <= k < initial.len() ==> #[trigger] slots@[k] == initial[k],
        ensures
            i <= slots@.len(),
            i < slots@.len() ==> initial[i as int] is None,
        decreases initial.len() - i,
    {
        let slot = slots[i].take();
        match slot {
            Some(worker) => {
                taken.push(worker);
            },
            None => {
                break;
            },
        }
        i = i + 1;
    }
    taken
}

} // verus!
