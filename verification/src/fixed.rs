//! Fixed-point arithmetic shared by the whole library.
//!
//! Fractions (proportions, progress, colour channels, scale thresholds and
//! angles measured in turns) are whole millionths: [`UNIT`] stands for one.
//! Every operation rounds in a stated direction and is exact otherwise.

use vstd::prelude::*;

verus! {

/// One whole, as a count of millionths.
pub const UNIT: u32 = 1_000_000;

/// `fraction` millionths of `length`, rounded down.
pub open spec fn portion_of(length: int, fraction: int) -> int {
    (length * fraction) / (UNIT as int)
}

/// The largest natural number whose square does not exceed `n`.
pub open spec fn floor_sqrt(n: nat) -> nat
    decreases n,
{
    if n == 0 {
        0
    } else {
        let below = floor_sqrt((n - 1) as nat);
        if (below + 1) * (below + 1) <= n {
            below + 1
        } else {
            below
        }
    }
}

/// `dividend / divisor` rounded up, for a positive divisor.
pub open spec fn ceil_div(dividend: int, divisor: int) -> int {
    (dividend + divisor - 1) / divisor
}

/// `floor_sqrt(n)` squared is at most `n`, and the next square is beyond `n`.
pub proof fn lemma_floor_sqrt_brackets(n: nat)
    ensures
        floor_sqrt(n) * floor_sqrt(n) <= n,
        n < (floor_sqrt(n) + 1) * (floor_sqrt(n) + 1),
    decreases n,
{
    if n == 0 {
        assert(floor_sqrt(0) == 0);
        assert(0 * 0 == 0 && (0 + 1) * (0 + 1) == 1) by (nonlinear_arith);
    } else {
        lemma_floor_sqrt_brackets((n - 1) as nat);
        let below = floor_sqrt((n - 1) as nat);
        if (below + 1) * (below + 1) <= n {
            assert(floor_sqrt(n) == below + 1);
            assert((below + 1) * (below + 1) < (below + 1 + 1) * (below + 1 + 1))
                by (nonlinear_arith);
        } else {
            assert(floor_sqrt(n) == below);
        }
    }
}

/// Any `root` that brackets `n` between its square and the next square is
/// `floor_sqrt(n)`.
pub proof fn lemma_floor_sqrt_unique(n: nat, root: nat)
    requires
        root * root <= n,
        n < (root + 1) * (root + 1),
    ensures
        root == floor_sqrt(n),
{
    lemma_floor_sqrt_brackets(n);
    let known = floor_sqrt(n);
    if root < known {
        assert((root + 1) * (root + 1) <= known * known) by (nonlinear_arith)
            requires
                root + 1 <= known,
        ;
    } else if known < root {
        assert((known + 1) * (known + 1) <= root * root) by (nonlinear_arith)
            requires
                known + 1 <= root,
        ;
    }
}

/// A number whose square fits under `n` is at most `floor_sqrt(n)`.
pub proof fn lemma_floor_sqrt_dominates(n: nat, candidate: nat)
    requires
        candidate * candidate <= n,
    ensures
        candidate <= floor_sqrt(n),
{
    lemma_floor_sqrt_brackets(n);
    let known = floor_sqrt(n);
    if known < candidate {
        assert((known + 1) * (known + 1) <= candidate * candidate) by (nonlinear_arith)
            requires
                known + 1 <= candidate,
        ;
    }
}

/// A number whose square exceeds `n` is greater than `floor_sqrt(n)`.
pub proof fn lemma_floor_sqrt_below(n: nat, candidate: nat)
    requires
        n < candidate * candidate,
    ensures
        floor_sqrt(n) < candidate,
{
    lemma_floor_sqrt_brackets(n);
    let known = floor_sqrt(n);
    if candidate <= known {
        assert(candidate * candidate <= known * known) by (nonlinear_arith)
            requires
                candidate <= known,
        ;
    }
}

/// `fraction` millionths of `length`, rounded down. A fraction of at most one
/// whole never yields more than `length`.
pub fn portion(length: u32, fraction: u32) -> (part: u64)
    ensures
        part == portion_of(length as int, fraction as int),
        fraction <= UNIT ==> part <= length,
{
    proof {
        assert(0 <= (length as int) * (fraction as int) <= 0xffff_ffff * 0xffff_ffff)
            by (nonlinear_arith)
            requires
                0 <= length <= 0xffff_ffff,
                0 <= fraction <= 0xffff_ffff,
        ;
        if fraction <= UNIT {
            assert((length as int) * (fraction as int) <= (length as int) * 1_000_000)
                by (nonlinear_arith)
                requires
                    0 <= length,
                    0 <= fraction <= 1_000_000,
            ;
        }
    }
    let product: u64 = (length as u64) * (fraction as u64);
    let part: u64 = product / (UNIT as u64);
    proof {
        if fraction <= UNIT {
            assert(product / 1_000_000 <= length) by (nonlinear_arith)
                requires
                    product <= length * 1_000_000,
            ;
        }
    }
    part
}

/// The integer square root: the largest `root` with `root * root <= n`.
pub fn isqrt(n: u128) -> (root: u64)
    ensures
        root == floor_sqrt(n as nat),
{
    let mut low: u128 = 0;
    let mut high: u128 = 0x1_0000_0000_0000_0000;
    proof {
        assert(0x1_0000_0000_0000_0000int * 0x1_0000_0000_0000_0000int > u128::MAX)
            by (nonlinear_arith);
    }
    while high - low > 1
        invariant
            low < high <= 0x1_0000_0000_0000_0000,
            low * low <= n,
            n < high * high,
        decreases high - low,
    {
        let middle: u128 = low + (high - low) / 2;
        proof {
            assert(middle * middle <= 0xffff_ffff_ffff_ffff * 0xffff_ffff_ffff_ffff)
                by (nonlinear_arith)
                requires
                    0 <= middle <= 0xffff_ffff_ffff_ffff,
            ;
        }
        if middle * middle <= n {
            low = middle;
        } else {
            high = middle;
        }
    }
    proof {
        lemma_floor_sqrt_unique(n as nat, low as nat);
    }
    low as u64
}

} // verus!
