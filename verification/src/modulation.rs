//! Modulation timers and the random draws that drive the read-head wobble.

use rand::rngs::StdRng;
use rand::Rng;
use vstd::prelude::*;
use vstd::arithmetic::div_mod::{lemma_add_mod_noop, lemma_mod_add_multiples_vanish, lemma_small_mod};

verus! {

#[verifier::external_type_specification]
#[verifier::external_body]
pub struct ExStdRng(StdRng);

/// Draws a value from `0..=255` with rand's `Rng::gen_range` on an inclusive range.
/// Claimed of it: the value lies in `0..=255`. Which value comes out depends on the
/// generator's state, and what the draw does to that state, are left unsaid.
#[verifier::external_body]
pub(crate) fn draw_byte(rng: &mut StdRng) -> (b: u32)
    ensures
        b <= 255,
{
    rng.gen_range(0..=255u32)
}

/// One tick of a countdown timer: it counts down and, on passing below zero,
/// reloads with its period.
pub open spec fn countdown_next(cur: int, period: int) -> int {
    if cur - 1 < 0 {
        period
    } else {
        cur - 1
    }
}

/// The timer value after `k` ticks.
pub open spec fn countdown_after(cur: int, period: int, k: nat) -> int
    decreases k,
{
    if k == 0 {
        cur
    } else {
        countdown_next(countdown_after(cur, period, (k - 1) as nat), period)
    }
}

/// Advance a countdown timer by one tick.
pub fn countdown(cur: i32, period: i32) -> (next: i32)
    requires
        cur > i32::MIN,
    ensures
        next == countdown_next(cur as int, period as int),
{
    let next = cur - 1;
    if next < 0 {
        period
    } else {
        next
    }
}

/// A countdown timer started anywhere in `0..=period` is, after `k` ticks, at
/// `(cur - k) mod (period + 1)`: it is periodic with period `period + 1` and
/// reaches zero exactly once in each period.
pub proof fn lemma_countdown_periodic(cur: int, period: int, k: nat)
    requires
        0 <= cur <= period,
    ensures
        countdown_after(cur, period, k) == (cur - k) % (period + 1),
        0 <= countdown_after(cur, period, k) <= period,
    decreases k,
{
    let m = period + 1;
    if k == 0 {
        lemma_small_mod(cur as nat, m as nat);
    } else {
        lemma_countdown_periodic(cur, period, (k - 1) as nat);
        let x = cur - (k - 1);
        let v = x % m;
        assert(countdown_after(cur, period, (k - 1) as nat) == v);
        lemma_add_mod_noop(x, -1, m);
        lemma_mod_add_multiples_vanish(-1, m);
        lemma_small_mod((m - 1) as nat, m as nat);
        assert((-1int) % m == m - 1);
        assert((v + (m - 1)) % m == (x - 1) % m);
        if v == 0 {
            assert((x - 1) % m == period);
        } else {
            lemma_mod_add_multiples_vanish(v - 1, m);
            lemma_small_mod((v - 1) as nat, m as nat);
            assert((x - 1) % m == v - 1);
        }
        assert(x - 1 == cur - k);
    }
}

/// A timer started at zero is back at zero exactly after whole periods.
pub proof fn lemma_countdown_fires_once_per_period(period: int, k: nat)
    requires
        0 <= period,
    ensures
        countdown_after(0, period, k) == 0 <==> (k as int) % (period + 1) == 0,
{
    lemma_countdown_periodic(0, period, k);
    vstd::arithmetic::div_mod::lemma_mod_equivalence(0, k as int, period + 1);
    vstd::arithmetic::div_mod::lemma_mod_equivalence(k as int, 0, period + 1);
    lemma_small_mod(0, (period + 1) as nat);
}

} // verus!
