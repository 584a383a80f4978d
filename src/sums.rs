use vstd::prelude::*;

verus! {

/// Sum of a sequence of counters.
pub open spec fn sum_u64(s: Seq<u64>) -> nat
    decreases s.len(),
{
    if s.len() == 0 {
        0
    } else {
        sum_u64(s.drop_last()) + s.last() as nat
    }
}

/// `n`, or `u64::MAX` where `n` does not fit.
pub open spec fn sat(n: nat) -> u64 {
    if n > u64::MAX {
        u64::MAX
    } else {
        n as u64
    }
}

/// Adds `x` to a saturated sum.
pub fn sat_step(acc: u64, x: u64, Ghost(n): Ghost<nat>) -> (r: u64)
    requires
        acc == sat(n),
    ensures
        r == sat(n + x as nat),
{
    acc.saturating_add(x)
}

} // verus!
