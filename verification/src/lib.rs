pub mod bit_set;
pub mod addr;
pub mod interrupt;
pub mod palloc;
pub mod heap;
pub mod scheduler;
pub mod sync;
pub mod alarm;
pub mod console;
pub mod pit;
pub mod shutdown;
pub mod timer;
pub mod linked_list;
pub mod thread;

use vstd::prelude::*;

verus! {

/// Number of bytes in a page frame.
pub const PAGE_SIZE: usize = 4096;

/// Returns `lhs / rhs` rounded up. The counterpart of the ordinary
/// integer division, which rounds down.
pub fn div_round_up(lhs: usize, rhs: usize) -> (r: usize)
    requires
        1 <= rhs,
    ensures
        r == spec_div_round_up(lhs as nat, rhs as nat),
{
    let quotient = lhs / rhs;
    let remainder = lhs % rhs;
    if remainder == 0 {
        proof {
            lemma_div_round_up_exact(lhs as nat, rhs as nat);
        }
        quotient
    } else {
        proof {
            lemma_div_round_up_inexact(lhs as nat, rhs as nat);
            assert(lhs / rhs < lhs) by (nonlinear_arith)
                requires
                    1 <= rhs,
                    lhs % rhs != 0,
            ;
        }
        quotient + 1
    }
}

/// `ceil(lhs / rhs)` on mathematical integers.
pub open spec fn spec_div_round_up(lhs: nat, rhs: nat) -> nat
    recommends
        rhs >= 1,
{
    ((lhs + rhs - 1) / (rhs as int)) as nat
}

/// Rounding up then multiplying back brackets the dividend:
/// `lhs <= ceil(lhs / rhs) * rhs < lhs + rhs`.
pub proof fn lemma_div_round_up_bounds(lhs: nat, rhs: nat)
    requires
        1 <= rhs,
    ensures
        lhs <= spec_div_round_up(lhs, rhs) * rhs,
        spec_div_round_up(lhs, rhs) * rhs < lhs + rhs,
{
    assert(lhs <= ((lhs + rhs - 1) / (rhs as int)) * rhs < lhs + rhs) by (nonlinear_arith)
        requires
            1 <= rhs,
    ;
}

/// Rounding up is monotonic in the dividend.
pub proof fn lemma_div_round_up_monotonic(small: nat, large: nat, rhs: nat)
    requires
        1 <= rhs,
        small <= large,
    ensures
        spec_div_round_up(small, rhs) <= spec_div_round_up(large, rhs),
{
    assert((small + rhs - 1) / (rhs as int) <= (large + rhs - 1) / (rhs as int))
        by (nonlinear_arith)
        requires
            1 <= rhs,
            small <= large,
    ;
}

proof fn lemma_div_round_up_exact(lhs: nat, rhs: nat)
    requires
        1 <= rhs,
        lhs % rhs == 0,
    ensures
        spec_div_round_up(lhs, rhs) == lhs / rhs,
{
    assert((lhs + rhs - 1) / (rhs as int) == (lhs as int) / (rhs as int)) by (nonlinear_arith)
        requires
            1 <= rhs,
            lhs % rhs == 0,
    ;
}

proof fn lemma_div_round_up_inexact(lhs: nat, rhs: nat)
    requires
        1 <= rhs,
        lhs % rhs != 0,
    ensures
        spec_div_round_up(lhs, rhs) == lhs / rhs + 1,
{
    assert((lhs + rhs - 1) / (rhs as int) == (lhs as int) / (rhs as int) + 1) by (nonlinear_arith)
        requires
            1 <= rhs,
            lhs % rhs != 0,
    ;
}

} // verus!

