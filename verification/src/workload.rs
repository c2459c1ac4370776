//! The CPU-bound workload of the starvation test: a sum whose running time
//! is linear in its argument.
use vstd::prelude::*;

verus! {

/// The `i`-th term of the workload sum for `n`.
pub open spec fn load_term(n: u64, i: u64) -> u64 {
    ((i ^ ((3 * i) as u64)) ^ ((i + n) as u64)) / ((i + 1) as u64)
}

/// `n` plus the first `k` terms of the workload sum for `n`.
pub open spec fn load_partial(n: u64, k: nat) -> int
    decreases k,
{
    if k == 0 {
        n as int
    } else {
        load_partial(n, (k - 1) as nat) + load_term(n, (k - 1) as u64)
    }
}

/// The partial sums grow with the number of terms.
proof fn lemma_load_partial_monotonic(n: u64, j: nat, k: nat)
    requires
        j <= k,
    ensures
        load_partial(n, j) <= load_partial(n, k),
    decreases k,
{
    if j < k {
        lemma_load_partial_monotonic(n, j, (k - 1) as nat);
    }
}

/// The workload sum for `n`: `n` plus, for every `i` below `n`, the term
/// `((i ^ 3i) ^ (i + n)) / (i + 1)`.
///
/// The terms must not overflow `u64`, nor must the sum.
pub fn load(n: u64) -> (r: u64)
    requires
        n == 0 || 3 * (n - 1) <= u64::MAX,
        load_partial(n, n as nat) <= u64::MAX,
    ensures
        r == load_partial(n, n as nat),
{
    let mut sum: u64 = n;
    let mut i: u64 = 0;
    while i < n
        invariant
            i <= n,
            n == 0 || 3 * (n - 1) <= u64::MAX,
            load_partial(n, n as nat) <= u64::MAX,
            sum == load_partial(n, i as nat),
        decreases n - i,
    {
        proof {
            lemma_load_partial_monotonic(n, (i + 1) as nat, n as nat);
        }
        sum += ((i ^ (i * 3)) ^ (i + n)) / (i + 1);
        i += 1;
    }
    sum
}

/// The terms of the workload sum for `n`, and the sum, fit in a `u64`.
pub open spec fn load_fits(n: u64) -> bool {
    &&& n == 0 || 3 * (n - 1) <= u64::MAX
    &&& load_partial(n, n as nat) <= u64::MAX
}

/// Adds the workload sum for `n` to the running total `total`, or gives
/// `None` when a term, the sum or the new total overflows a `u64`.
pub fn add_load(total: u64, n: u64) -> (r: Option<u64>)
    ensures
        r == (if load_fits(n) && total + load_partial(n, n as nat) <= u64::MAX {
            Some((total + load_partial(n, n as nat)) as u64)
        } else {
            None
        }),
{
    if n > 0 && (n - 1).checked_mul(3).is_none() {
        return None;
    }
    let mut sum: u64 = n;
    let mut i: u64 = 0;
    while i < n
        invariant
            i <= n,
            n == 0 || 3 * (n - 1) <= u64::MAX,
            sum == load_partial(n, i as nat),
        decreases n - i,
    {
        let term = ((i ^ (i * 3)) ^ (i + n)) / (i + 1);
        match sum.checked_add(term) {
            Some(next) => {
                sum = next;
            },
            None => {
                proof {
                    lemma_load_partial_monotonic(n, (i + 1) as nat, n as nat);
                }
                return None;
            },
        }
        i += 1;
    }
    total.checked_add(sum)
}

} // verus!
