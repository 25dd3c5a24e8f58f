//! Moving along one axis of the torus with machine integers.

use crate::grid::wrap;
use vstd::arithmetic::div_mod::{lemma_mod_bound, lemma_mod_multiples_vanish, lemma_fundamental_div_mod};
use vstd::prelude::*;

verus! {

/// The place `k` steps after `x` on a ring of `n` places.
pub fn step_forward(x: u32, k: u32, n: u32) -> (place: u32)
    requires
        n > 0,
    ensures
        place == wrap(x + k, n as int),
        place < n,
{
    proof {
        lemma_mod_bound(x + k, n as int);
    }
    ((x as u64 + k as u64) % (n as u64)) as u32
}

/// The place `k` steps before `x` on a ring of `n` places. `k` may exceed
/// `n`, and then goes round more than once.
pub fn step_backward(x: u32, k: u32, n: u32) -> (place: u32)
    requires
        n > 0,
    ensures
        place == wrap(x - k, n as int),
        place < n,
{
    let back: u64 = (k % n) as u64;
    proof {
        let m = n as int;
        lemma_mod_bound(k as int, m);
        lemma_mod_bound(x - k, m);
        lemma_fundamental_div_mod(k as int, m);
        // x + n - k % n and x - k differ by a multiple of n
        let q = k as int / m;
        assert(x + m - back == m * (q + 1) + (x - k)) by (nonlinear_arith)
            requires
                k as int == m * q + back as int,
        ;
        lemma_mod_multiples_vanish(q + 1, x - k, m);
    }
    ((x as u64 + n as u64 - back) % (n as u64)) as u32
}

} // verus!
