//! Phase arithmetic on a circle of `period` ticks.

use vstd::arithmetic::div_mod::{
    lemma_fundamental_div_mod, lemma_fundamental_div_mod_converse_mod,
    lemma_mod_bound, lemma_mod_multiples_vanish, lemma_small_mod,
};
use vstd::prelude::*;

verus! {

/// The place on a circle of `period` ticks that `position` falls on.
pub open spec fn wrap(position: int, period: int) -> int {
    position % period
}

/// A wrapped position lies on the circle.
pub proof fn lemma_wrap_in_range(position: int, period: int)
    requires
        period > 0,
    ensures
        0 <= wrap(position, period) < period,
{
    lemma_mod_bound(position, period);
}

/// A position on the circle is its own place.
pub proof fn lemma_wrap_fixes_circle(position: int, period: int)
    requires
        0 <= position < period,
    ensures
        wrap(position, period) == position,
{
    lemma_small_mod(position as nat, period as nat);
}

/// Whole turns do not show: `turns * period` ticks more lead to the same place.
pub proof fn lemma_wrap_drops_turns(position: int, turns: int, period: int)
    requires
        period > 0,
    ensures
        wrap(position + turns * period, period) == wrap(position, period),
{
    lemma_mod_multiples_vanish(turns, position, period);
    assert(period * turns + position == position + turns * period) by (nonlinear_arith);
}

/// Wrapping on the way changes nothing: a step from the wrapped position ends
/// where the same step from the position itself ends.
pub proof fn lemma_wrap_then_step(position: int, step: int, period: int)
    requires
        period > 0,
    ensures
        wrap(wrap(position, period) + step, period) == wrap(position + step, period),
{
    lemma_fundamental_div_mod(position, period);
    lemma_wrap_drops_turns(wrap(position, period) + step, position / period, period);
    assert(period * (position / period) == (position / period) * period) by (nonlinear_arith);
}

/// Moves a cursor on by `increment` ticks, forwards or backwards, and wraps it.
pub fn advance(index: u128, increment: i128, period: u128) -> (next: u128)
    requires
        0 < period <= i128::MAX,
        index < period,
    ensures
        next == wrap(index + increment, period as int),
{
    let signed_period: i128 = period as i128;
    let remainder: i128 = increment % signed_period;
    let step: u128 = if remainder < 0 {
        (remainder + signed_period) as u128
    } else {
        remainder as u128
    };
    let sum: u128 = index + step;
    let next: u128 = if sum >= period {
        sum - period
    } else {
        sum
    };
    proof {
        let p = period as int;
        let jump = increment as int;
        // `step` is the increment up to whole turns.
        let forward = jump / p;
        let backward = (-jump) / p;
        let turns: int = if jump >= 0 {
            forward
        } else if remainder < 0 {
            -backward - 1
        } else {
            -backward
        };
        lemma_fundamental_div_mod(jump, p);
        lemma_fundamental_div_mod(-jump, p);
        assert(jump == turns * p + step) by (nonlinear_arith)
            requires
                jump >= 0 ==> jump == p * forward + step && turns == forward,
                jump < 0 && remainder < 0 ==> -jump == p * backward + (p - step) && turns
                    == -backward - 1,
                jump < 0 && remainder >= 0 ==> -jump == p * backward && step == 0 && turns
                    == -backward,
        ;
        let lap: int = if sum >= period {
            1
        } else {
            0
        };
        assert(index + jump == (turns + lap) * p + next) by (nonlinear_arith)
            requires
                jump == turns * p + step,
                next == index + step - lap * p,
        ;
        lemma_fundamental_div_mod_converse_mod(index + jump, p, turns + lap, next as int);
    }
    next
}

} // verus!
