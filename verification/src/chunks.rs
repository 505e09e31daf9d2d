//! Splitting a flat buffer into consecutive fixed-size blocks, as the
//! simulator does with its per-antenna and per-source phase buffers and with
//! the per-antenna sample blocks read back from the GPU.

use vstd::arithmetic::div_mod::lemma_fundamental_div_mod;
use vstd::arithmetic::mul::lemma_mul_is_distributive_add_other_way;
use vstd::prelude::*;

verus! {

/// Number of blocks of `chunk_size` items (the last one possibly shorter)
/// that cover `len` items: `ceil(len / chunk_size)`.
pub open spec fn num_chunks(len: nat, chunk_size: nat) -> nat {
    ((len + chunk_size - 1) / (chunk_size as int)) as nat
}

/// Number of blocks visited when the blocks are paired one by one with
/// `max_chunks` other items: the shorter of the two runs.
pub open spec fn paired_chunk_count(len: nat, chunk_size: nat, max_chunks: nat) -> nat {
    let n = num_chunks(len, chunk_size);
    if n < max_chunks { n } else { max_chunks }
}

/// End of block `k`: `(k + 1) * chunk_size`, cut at `len`.
pub open spec fn chunk_end(len: nat, chunk_size: nat, k: nat) -> nat {
    let e = (k + 1) * chunk_size;
    if e < len { e } else { len }
}

/// Block `k` starts before the end of the buffer exactly when `k` is one of
/// the `num_chunks` blocks.
pub proof fn lemma_chunk_starts_inside(k: nat, len: nat, chunk_size: nat)
    requires
        chunk_size > 0,
    ensures
        (k * chunk_size < len) == (k < num_chunks(len, chunk_size)),
{
    let c = chunk_size as int;
    let q = (len + c - 1) / c;
    let r = (len + c - 1) % c;
    lemma_fundamental_div_mod(len + c - 1, c);
    assert(0 <= r < c);
    if k < q {
        assert(k * c < len) by (nonlinear_arith)
            requires k < q, len + c - 1 == c * q + r, 0 <= r < c, c > 0, k >= 0;
    } else {
        assert(k * c >= len) by (nonlinear_arith)
            requires k >= q, len + c - 1 == c * q + r, 0 <= r < c, c > 0;
    }
}

/// The `(start, end)` bounds of the blocks of `chunk_size` items of a buffer
/// of `len` items, for as many blocks as there are or as `max_chunks` allows
/// if that is fewer. Block `k` is `k * chunk_size .. min((k + 1) * chunk_size, len)`.
pub fn chunk_ranges(len: usize, chunk_size: usize, max_chunks: usize) -> (r: Vec<(usize, usize)>)
    requires
        chunk_size > 0,
    ensures
        r.len() == paired_chunk_count(len as nat, chunk_size as nat, max_chunks as nat),
        forall|k: int| 0 <= k < r.len() ==> (#[trigger] r[k]).0 == k * chunk_size && r[k].1 == chunk_end(len as nat, chunk_size as nat, k as nat),
        forall|k: int| 0 <= k < r.len() ==> (#[trigger] r[k]).0 < r[k].1,
        forall|k: int| 0 <= k < r.len() - 1 ==> (#[trigger] r[k]).1 == r[k + 1].0,
        max_chunks >= num_chunks(len as nat, chunk_size as nat) && len > 0 ==> r[r.len() - 1].1 == len,
{
    let ghost c = chunk_size as nat;
    let mut ranges: Vec<(usize, usize)> = Vec::new();
    let mut start: usize = 0;
    assert(ranges.len() == 0);
    assert(ranges.len() * c == 0) by (nonlinear_arith)
        requires ranges.len() == 0;
    while start < len && ranges.len() < max_chunks
        invariant
            c == chunk_size,
            c > 0,
            start <= len,
            start == (if ranges.len() * c < len { ranges.len() * c } else { len as int }),
            ranges.len() <= max_chunks,
            ranges.len() <= num_chunks(len as nat, c),
            forall|k: int| 0 <= k < ranges.len() ==> (#[trigger] ranges[k]).0 == k * chunk_size && ranges[k].1 == chunk_end(len as nat, c, k as nat),
            forall|k: int| 0 <= k < ranges.len() ==> (#[trigger] ranges[k]).0 < ranges[k].1,
        decreases len - start,
    {
        let ghost k = ranges.len() as nat;
        proof {
            lemma_chunk_starts_inside(k, len as nat, c);
            lemma_mul_is_distributive_add_other_way(c as int, k as int, 1);
            assert(start == k * c);
        }
        let end = if len - start > chunk_size { start + chunk_size } else { len };
        ranges.push((start, end));
        start = end;
        proof {
            assert(ranges.len() == k + 1);
            if end < len {
                assert((k + 1) * c < len);
            } else {
                assert((k + 1) * c >= len);
            }
        }
    }
    proof {
        let m = ranges.len() as nat;
        lemma_chunk_starts_inside(m, len as nat, c);
        assert forall|k: int| 0 <= k < ranges.len() - 1 implies (#[trigger] ranges[k]).1 == ranges[k + 1].0 by {
            lemma_chunk_starts_inside((k + 1) as nat, len as nat, c);
        }
        if max_chunks >= num_chunks(len as nat, c) && len > 0 {
            lemma_chunk_starts_inside(0, len as nat, c);
            assert(m == num_chunks(len as nat, c));
            lemma_chunk_starts_inside((m - 1) as nat, len as nat, c);
            lemma_mul_is_distributive_add_other_way(c as int, (m - 1) as int, 1);
        }
    }
    ranges
}

/// A buffer of `count` blocks of `chunk_size` items, paired with `count`
/// items, splits into exactly `count` full blocks: block `k` is
/// `k * chunk_size .. (k + 1) * chunk_size`. Within a buffer that starts at
/// block `first` of a larger one, it is that buffer's block `first + k`.
pub proof fn lemma_full_blocks(count: nat, chunk_size: nat, first: nat, k: nat)
    requires
        chunk_size > 0,
        k < count,
    ensures
        paired_chunk_count(count * chunk_size, chunk_size, count) == count,
        chunk_end(count * chunk_size, chunk_size, k) == (k + 1) * chunk_size,
        first * chunk_size + k * chunk_size == (first + k) * chunk_size,
        first * chunk_size + (k + 1) * chunk_size == (first + k + 1) * chunk_size,
{
    let c = chunk_size as int;
    assert((count * c + c - 1) / c == count) by (nonlinear_arith)
        requires c > 0, count >= 0;
    assert((k + 1) * c <= count * c) by (nonlinear_arith)
        requires k + 1 <= count, c > 0;
    lemma_mul_is_distributive_add_other_way(c, first as int, k as int);
    lemma_mul_is_distributive_add_other_way(c, first as int, (k + 1) as int);
}

} // verus!
