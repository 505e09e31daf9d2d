//! Powers of two, as the simulator's window sizes and oversampling factors
//! must be.

use vstd::arithmetic::power2::{pow2, lemma_pow2_pos, lemma_pow2_unfold, lemma_pow2_adds, lemma_pow2_strictly_increases, lemma2_to64};
use vstd::prelude::*;

verus! {

/// `n` is `2^k` for some natural `k`.
pub open spec fn is_power_of_two_spec(n: nat) -> bool {
    exists|k: nat| #[trigger] pow2(k) == n
}

/// A number `m * 2^k` with `m` odd and `m > 1` is not a power of two.
proof fn lemma_odd_multiple_not_power(m: nat, k: nat, j: nat)
    requires
        m > 1,
        m % 2 == 1,
    ensures
        pow2(j) != m * pow2(k),
{
    lemma_pow2_pos(k);
    lemma_pow2_pos(j);
    if j <= k {
        if j < k {
            lemma_pow2_strictly_increases(j, k);
        }
        assert(m * pow2(k) >= 2 * pow2(k)) by (nonlinear_arith)
            requires m > 1, pow2(k) > 0;
    } else {
        let d = (j - k) as nat;
        lemma_pow2_adds(k, d);
        lemma_pow2_unfold(d);
        if pow2(j) == m * pow2(k) {
            assert(pow2(k) * pow2(d) == m * pow2(k));
            assert(pow2(d) == m) by (nonlinear_arith)
                requires pow2(k) * pow2(d) == m * pow2(k), pow2(k) > 0;
            assert(pow2(d) == 2 * pow2((d - 1) as nat));
        }
    }
}

/// Returns whether `n` is a power of two (`1, 2, 4, 8, ...`); `0` is not.
pub fn is_power_of_two(n: usize) -> (r: bool)
    ensures
        r == is_power_of_two_spec(n as nat),
{
    if n == 0 {
        assert forall|k: nat| #[trigger] pow2(k) != 0 by {
            lemma_pow2_pos(k);
        }
        return false;
    }
    let mut m: usize = n;
    let ghost mut k: nat = 0;
    proof {
        lemma2_to64();
    }
    while m % 2 == 0
        invariant
            m > 0,
            m * pow2(k) == n,
        decreases m,
    {
        proof {
            lemma_pow2_unfold(k + 1);
            assert((m / 2) * pow2(k + 1) == n) by (nonlinear_arith)
                requires m % 2 == 0, m * pow2(k) == n, pow2(k + 1) == 2 * pow2(k);
        }
        m = m / 2;
        proof {
            k = k + 1;
        }
    }
    if m == 1 {
        assert(pow2(k) == n);
        true
    } else {
        assert forall|j: nat| #[trigger] pow2(j) != n by {
            lemma_odd_multiple_not_power(m as nat, k, j);
        }
        false
    }
}

} // verus!
