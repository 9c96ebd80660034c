//! Growth and decay as functions of elapsed time.
//!
//! A bloom grows along a cubic ease-out, `1 - (1 - t)^3` with `t` the
//! elapsed share of the bloom duration, and later fades along the mirror
//! image of the same curve. Times are in milliseconds; progress is in
//! millionths, rounded down.

use vstd::prelude::*;
use vstd::arithmetic::div_mod::{lemma_div_is_ordered, lemma_div_multiples_vanish};
use crate::fixed::UNIT;

verus! {

/// The third power.
pub open spec fn cube(x: int) -> int {
    x * x * x
}

/// Growth after `elapsed` of a bloom that takes `duration` to grow: the
/// cubic ease-out, zero at the start and one whole from `duration` on.
pub open spec fn bloom_progress_of(elapsed: nat, duration: nat) -> nat {
    if elapsed >= duration {
        UNIT as nat
    } else {
        ((UNIT * (cube(duration as int) - cube(duration - elapsed))) / cube(duration as int)) as nat
    }
}

/// Opacity after `elapsed` of a bloom that starts to fade at `life_span` and
/// takes `duration` to vanish. A bloom without a life span stays opaque.
pub open spec fn death_progress_of(elapsed: nat, life_span: Option<nat>, duration: nat) -> nat {
    match life_span {
        None => UNIT as nat,
        Some(span) => if elapsed <= span {
            UNIT as nat
        } else {
            (UNIT - bloom_progress_of((elapsed - span) as nat, duration)) as nat
        },
    }
}

/// A life span as a natural number of milliseconds.
pub open spec fn span_of(life_span: Option<u32>) -> Option<nat> {
    match life_span {
        Some(span) => Some(span as nat),
        None => None,
    }
}

/// Whether a bloom has faded out entirely after `elapsed`.
pub open spec fn is_dead_of(elapsed: nat, life_span: Option<nat>, duration: nat) -> bool {
    life_span matches Some(span) && elapsed > span + duration
}

proof fn lemma_cube_ordered(small: int, large: int)
    requires
        0 <= small <= large,
    ensures
        0 <= cube(small) <= cube(large),
        small > 0 ==> cube(small) > 0,
{
    assert(0 <= small * small <= large * large) by (nonlinear_arith)
        requires
            0 <= small <= large,
    ;
    assert(0 <= small * small * small <= large * large * large) by (nonlinear_arith)
        requires
            0 <= small <= large,
            0 <= small * small <= large * large,
    ;
    assert(small > 0 ==> small * small * small > 0) by (nonlinear_arith)
        requires
            0 <= small,
    ;
}

/// Growth never exceeds one whole.
pub proof fn lemma_bloom_in_range(elapsed: nat, duration: nat)
    ensures
        bloom_progress_of(elapsed, duration) <= UNIT,
{
    if elapsed < duration {
        let whole: int = cube(duration as int);
        let rest: int = cube(duration - elapsed);
        lemma_cube_ordered(duration - elapsed, duration as int);
        assert(0 <= UNIT * (whole - rest) <= UNIT * whole) by (nonlinear_arith)
            requires
                0 <= rest <= whole,
        ;
        lemma_div_is_ordered(UNIT * (whole - rest), UNIT * whole, whole);
        lemma_div_is_ordered(0, UNIT * (whole - rest), whole);
        assert(UNIT * whole == whole * UNIT) by (nonlinear_arith);
        lemma_div_multiples_vanish(UNIT as int, whole);
    }
}

/// Growth never runs backwards.
pub proof fn lemma_bloom_monotonic(earlier: nat, later: nat, duration: nat)
    requires
        earlier <= later,
    ensures
        bloom_progress_of(earlier, duration) <= bloom_progress_of(later, duration),
{
    if later >= duration {
        lemma_bloom_in_range(earlier, duration);
    } else {
        let whole: int = cube(duration as int);
        let rest_earlier: int = cube(duration - earlier);
        let rest_later: int = cube(duration - later);
        lemma_cube_ordered(duration - later, duration - earlier);
        lemma_cube_ordered(duration - earlier, duration as int);
        assert(0 <= UNIT * (whole - rest_earlier) <= UNIT * (whole - rest_later))
            by (nonlinear_arith)
            requires
                0 <= rest_later <= rest_earlier <= whole,
        ;
        lemma_div_is_ordered(0, UNIT * (whole - rest_earlier), whole);
        lemma_div_is_ordered(UNIT * (whole - rest_earlier), UNIT * (whole - rest_later), whole);
        lemma_div_is_ordered(0, UNIT * (whole - rest_later), whole);
    }
}

/// The growth curve of a bloom with a positive duration: it starts at zero,
/// reaches one whole exactly at the bloom duration, stays within zero and one
/// whole for every elapsed time, and never decreases as time goes on.
pub proof fn lemma_bloom_progress_eases(duration: nat, earlier: nat, later: nat)
    requires
        duration > 0,
        earlier <= later,
    ensures
        bloom_progress_of(0, duration) == 0,
        bloom_progress_of(duration, duration) == UNIT,
        later >= duration ==> bloom_progress_of(later, duration) == UNIT,
        0 <= bloom_progress_of(earlier, duration) <= bloom_progress_of(later, duration) <= UNIT,
{
    lemma_bloom_monotonic(earlier, later, duration);
    lemma_bloom_in_range(later, duration);
    let whole: int = cube(duration as int);
    lemma_cube_ordered(duration as int, duration as int);
    assert(UNIT * (whole - whole) == 0) by (nonlinear_arith);
    assert(0int / whole == 0) by (nonlinear_arith)
        requires
            whole > 0,
    ;
}

/// The decay of a bloom with a life span and a positive bloom duration: it
/// is fully opaque until the life span has passed, its opacity never
/// increases afterwards and is zero once a further bloom duration has passed;
/// it counts as dead exactly when more than life span plus bloom duration
/// has elapsed, and a dead bloom is fully transparent.
pub proof fn lemma_death_progress_fades(life_span: nat, duration: nat, earlier: nat, later: nat)
    requires
        duration > 0,
        earlier <= later,
    ensures
        earlier <= life_span ==> death_progress_of(earlier, Some(life_span), duration) == UNIT,
        death_progress_of(later, Some(life_span), duration) <= death_progress_of(
            earlier,
            Some(life_span),
            duration,
        ) <= UNIT,
        later >= life_span + duration ==> death_progress_of(later, Some(life_span), duration) == 0,
        is_dead_of(later, Some(life_span), duration) <==> later > life_span + duration,
        is_dead_of(later, Some(life_span), duration) ==> death_progress_of(
            later,
            Some(life_span),
            duration,
        ) == 0,
{
    if later > life_span {
        lemma_bloom_in_range((later - life_span) as nat, duration);
        if earlier > life_span {
            lemma_bloom_in_range((earlier - life_span) as nat, duration);
            lemma_bloom_monotonic(
                (earlier - life_span) as nat,
                (later - life_span) as nat,
                duration,
            );
        }
    }
}

/// A bloom without a life span never fades and never dies.
pub proof fn lemma_no_life_span_no_death(duration: nat, elapsed: nat)
    ensures
        death_progress_of(elapsed, None, duration) == UNIT,
        !is_dead_of(elapsed, None, duration),
{
}

/// Growth after `elapsed` milliseconds of a bloom that takes `duration`
/// milliseconds to grow.
pub fn ease_out(elapsed: u64, duration: u32) -> (progress: u32)
    ensures
        progress == bloom_progress_of(elapsed as nat, duration as nat),
        progress <= UNIT,
{
    proof {
        lemma_bloom_in_range(elapsed as nat, duration as nat);
    }
    if elapsed >= duration as u64 {
        return UNIT;
    }
    let span: u128 = duration as u128;
    let left: u128 = span - elapsed as u128;
    proof {
        lemma_cube_ordered(left as int, span as int);
        lemma_cube_ordered(span as int, 0xffff_ffff);
        assert(0 <= left * left <= span * span <= 0xffff_ffff * 0xffff_ffff) by (nonlinear_arith)
            requires
                0 <= left <= span <= 0xffff_ffff,
        ;
        assert(cube(0xffff_ffff) == 0xffff_ffff * 0xffff_ffff * 0xffff_ffff);
        assert(0xffff_ffffint * 0xffff_ffffint * 0xffff_ffffint
            == 79228162458924105385300197375int) by (nonlinear_arith);
    }
    let whole: u128 = span * span * span;
    let rest: u128 = left * left * left;
    proof {
        assert(whole == cube(span as int));
        assert(rest == cube(left as int));
        assert(0 <= UNIT * (whole - rest) <= 1_000_000 * 79228162458924105385300197375int)
            by (nonlinear_arith)
            requires
                0 <= rest <= whole <= 79228162458924105385300197375int,
                UNIT == 1_000_000,
        ;
    }
    let grown: u128 = (UNIT as u128) * (whole - rest);
    let progress: u128 = grown / whole;
    progress as u32
}

/// Opacity after `elapsed` milliseconds of a bloom that starts to fade at
/// `life_span` and takes `duration` milliseconds to vanish.
pub fn fade_out(elapsed: u64, life_span: Option<u32>, duration: u32) -> (progress: u32)
    ensures
        progress == death_progress_of(elapsed as nat, span_of(life_span), duration as nat),
        progress <= UNIT,
{
    match life_span {
        None => UNIT,
        Some(span) => {
            if elapsed <= span as u64 {
                UNIT
            } else {
                UNIT - ease_out(elapsed - span as u64, duration)
            }
        },
    }
}

} // verus!
