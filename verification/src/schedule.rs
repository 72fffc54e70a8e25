//! Round scheduling: spread a day's request budget evenly across 24
//! hours, anchored at the most recent local midnight.
//!
//! The interval between rounds is the exact rational `86400 / rounds`
//! seconds; truncation to whole seconds happens once, at the final
//! instant computation, so round times always fall on the same daily
//! lattice no matter when the process starts or restarts.

use vstd::arithmetic::div_mod::{
    lemma_div_is_ordered, lemma_div_multiples_vanish, lemma_fundamental_div_mod,
    lemma_fundamental_div_mod_converse, lemma_mod_bound, lemma_mod_multiples_vanish,
};
use vstd::arithmetic::mul::lemma_mul_inequality;
use vstd::prelude::*;

verus! {

/// Epoch instant of the most recent midnight, in the local time denoted
/// by `off` (a signed UTC offset in seconds), at or before `now`.
pub open spec fn midnight_spec(now: int, off: int) -> int {
    let local = now + off;
    local - (local % 86400) - off
}

/// Number of whole-interval steps from midnight needed to reach `now`:
/// the least `k` with `midnight + k * (86400 / r) >= now`, computed on
/// exact rationals.
pub open spec fn steps_needed(mid: int, r: int, now: int) -> int {
    ((now - mid) * r + 86399) / 86400
}

/// The next instant on the daily round lattice at or after `now`:
/// `midnight + k * 86400 / r`, truncated to whole seconds only here.
pub open spec fn next_run_spec(mid: int, r: int, now: int) -> int {
    mid + (steps_needed(mid, r, now) * 86400) / r
}

/// The ceiling property of `steps_needed`: `k` steps reach `now`, and
/// `k` is the least such count.
proof fn lemma_steps_ceil(mid: int, r: int, now: int)
    requires
        r >= 1,
        mid <= now,
    ensures
        steps_needed(mid, r, now) * 86400 >= (now - mid) * r,
        (steps_needed(mid, r, now) - 1) * 86400 < (now - mid) * r,
        steps_needed(mid, r, now) >= 0,
{
    let num = (now - mid) * r + 86399;
    let k = num / 86400;
    lemma_fundamental_div_mod(num, 86400);
    lemma_mod_bound(num, 86400);
    assert(num == 86400 * k + num % 86400);
    assert(0 <= num % 86400 < 86400);
    assert((now - mid) * r >= 0) by {
        lemma_mul_inequality(0, now - mid, r);
    }
}

/// The lattice instant never lies before `now` (and so a wait computed
/// from it is never negative).
pub proof fn lemma_next_run_at_or_after(mid: int, r: int, now: int)
    requires
        r >= 1,
        mid <= now,
    ensures
        next_run_spec(mid, r, now) >= now,
        next_run_spec(mid, r, now) >= mid,
{
    let k = steps_needed(mid, r, now);
    lemma_steps_ceil(mid, r, now);
    assert(k * 86400 >= (now - mid) * r);
    assert((k * 86400) / r >= ((now - mid) * r) / r) by {
        lemma_div_is_ordered((now - mid) * r, k * 86400, r);
    }
    assert(((now - mid) * r) / r == now - mid) by {
        lemma_div_multiples_vanish(now - mid, r);
        assert((now - mid) * r == r * (now - mid));
    }
    assert((k * 86400) / r >= 0) by {
        lemma_div_is_ordered(0, k * 86400, r);
    }
}

/// Later calls never schedule earlier: the next-run instant is monotonic
/// in `now`.
pub proof fn lemma_next_run_monotonic(mid: int, r: int, now1: int, now2: int)
    requires
        r >= 1,
        mid <= now1 <= now2,
    ensures
        next_run_spec(mid, r, now1) <= next_run_spec(mid, r, now2),
{
    let n1 = (now1 - mid) * r + 86399;
    let n2 = (now2 - mid) * r + 86399;
    assert((now1 - mid) * r <= (now2 - mid) * r) by {
        lemma_mul_inequality(now1 - mid, now2 - mid, r);
    }
    lemma_div_is_ordered(n1, n2, 86400);
    let k1 = steps_needed(mid, r, now1);
    let k2 = steps_needed(mid, r, now2);
    assert(k1 * 86400 <= k2 * 86400) by {
        lemma_mul_inequality(k1, k2, 86400);
    }
    lemma_div_is_ordered(k1 * 86400, k2 * 86400, r);
}

/// Scheduling is idempotent: asked again exactly at a scheduled instant,
/// the scheduler answers that same instant.
pub proof fn lemma_next_run_idempotent(mid: int, r: int, now: int)
    requires
        r >= 1,
        mid <= now,
    ensures
        next_run_spec(mid, r, next_run_spec(mid, r, now)) == next_run_spec(mid, r, now),
{
    let k = steps_needed(mid, r, now);
    let x = (k * 86400) / r;
    let nx = next_run_spec(mid, r, now);
    lemma_next_run_at_or_after(mid, r, now);
    assert(nx - mid == x);
    // x = floor(k * 86400 / r), so x * r <= k * 86400 < (x + 1) * r ... only
    // the lower product bound is needed on both sides.
    lemma_fundamental_div_mod(k * 86400, r);
    lemma_mod_bound(k * 86400, r);
    assert(k * 86400 == r * ((k * 86400) / r) + (k * 86400) % r);
    assert(0 <= (k * 86400) % r < r);
    assert(x * r == r * x);
    assert(x * r <= k * 86400);

    let k2 = steps_needed(mid, r, nx);
    lemma_steps_ceil(mid, r, nx);
    // k2 is the least step count reaching nx; k also reaches nx, so k2 <= k.
    assert(k2 * 86400 >= x * r);
    assert((k2 - 1) * 86400 < x * r);
    assert(k2 <= k) by {
        if k2 > k {
            assert(k <= k2 - 1);
            assert(k * 86400 <= (k2 - 1) * 86400) by {
                lemma_mul_inequality(k, k2 - 1, 86400);
            }
        }
    }
    let x2 = (k2 * 86400) / r;
    assert(x2 <= x) by {
        assert(k2 * 86400 <= k * 86400) by {
            lemma_mul_inequality(k2, k, 86400);
        }
        lemma_div_is_ordered(k2 * 86400, k * 86400, r);
    }
    assert(x2 >= x) by {
        assert(k2 * 86400 >= x * r);
        lemma_div_is_ordered(x * r, k2 * 86400, r);
        assert((x * r) / r == x) by {
            lemma_div_multiples_vanish(x, r);
            assert(x * r == r * x);
        }
    }
}

/// Moving the anchor by a whole number of days does not move the
/// lattice: round instants form one fixed daily grid, so anchoring at
/// a later midnight — as a process restarted days later does —
/// computes the very same instants.  The schedule cannot drift.
pub proof fn lemma_next_run_anchor_invariant(mid: int, r: int, x: int, j: int)
    requires
        r >= 1,
    ensures
        next_run_spec(mid + 86400 * j, r, x) == next_run_spec(mid, r, x),
{
    let a = (x - mid) * r + 86399;
    let k1 = a / 86400;
    let b = k1 * 86400;
    lemma_fundamental_div_mod(a, 86400);
    lemma_mod_bound(a, 86400);
    assert((x - (mid + 86400 * j)) * r == (x - mid) * r - 86400 * (j * r)) by (nonlinear_arith);
    let a2 = (x - (mid + 86400 * j)) * r + 86399;
    assert(a2 == a - 86400 * (j * r));
    assert(a2 / 86400 == k1 - j * r) by {
        lemma_fundamental_div_mod_converse(a2, 86400, k1 - j * r, a % 86400);
    }
    let k2 = k1 - j * r;
    assert((k1 - j * r) * 86400 == k1 * 86400 - 86400 * (j * r)) by (nonlinear_arith);
    assert(k2 * 86400 == b - 86400 * (j * r));
    lemma_fundamental_div_mod(b, r);
    lemma_mod_bound(b, r);
    assert(r * (b / r - 86400 * j) == r * (b / r) - 86400 * (j * r)) by (nonlinear_arith);
    assert((k2 * 86400) / r == b / r - 86400 * j) by {
        lemma_fundamental_div_mod_converse(k2 * 86400, r, b / r - 86400 * j, b % r);
    }
}

/// The midnight anchor is monotone in `now`, lies at or before it, and
/// moves only by whole days.
proof fn lemma_midnight_step(off: int, now1: int, now2: int)
    requires
        now1 <= now2,
    ensures
        midnight_spec(now1, off) <= now1,
        midnight_spec(now1, off) <= midnight_spec(now2, off),
        midnight_spec(now2, off) - midnight_spec(now1, off) == 86400 * ((now2 + off) / 86400 - (
        now1 + off) / 86400),
{
    let l1 = now1 + off;
    let l2 = now2 + off;
    lemma_fundamental_div_mod(l1, 86400);
    lemma_fundamental_div_mod(l2, 86400);
    lemma_mod_bound(l1, 86400);
    lemma_mod_bound(l2, 86400);
    lemma_div_is_ordered(l1, l2, 86400);
}

/// Monotonicity across midnights: with the anchor recomputed from each
/// clock reading, a later `now` never schedules earlier.
pub proof fn lemma_next_run_monotonic_in_time(off: int, r: int, now1: int, now2: int)
    requires
        r >= 1,
        now1 <= now2,
    ensures
        next_run_spec(midnight_spec(now1, off), r, now1) <= next_run_spec(
            midnight_spec(now2, off),
            r,
            now2,
        ),
{
    let m1 = midnight_spec(now1, off);
    let m2 = midnight_spec(now2, off);
    let j = (now2 + off) / 86400 - (now1 + off) / 86400;
    lemma_midnight_step(off, now1, now2);
    assert(m2 == m1 + 86400 * j);
    lemma_next_run_anchor_invariant(m1, r, now2, j);
    lemma_next_run_monotonic(m1, r, now1, now2);
}

/// Idempotence across midnights: asked again exactly at the instant it
/// answered, with the anchor recomputed there, the scheduler answers
/// that same instant — even when the instant falls on a later day.
pub proof fn lemma_next_run_idempotent_in_time(off: int, r: int, now: int)
    requires
        r >= 1,
    ensures
        ({
            let t = next_run_spec(midnight_spec(now, off), r, now);
            next_run_spec(midnight_spec(t, off), r, t) == t
        }),
{
    let m = midnight_spec(now, off);
    let t = next_run_spec(m, r, now);
    lemma_midnight_step(off, now, now);
    lemma_next_run_at_or_after(m, r, now);
    let j = (t + off) / 86400 - (now + off) / 86400;
    lemma_midnight_step(off, now, t);
    assert(midnight_spec(t, off) == m + 86400 * j);
    lemma_next_run_anchor_invariant(m, r, t, j);
    lemma_next_run_idempotent(m, r, now);
}

/// Epoch instant of the most recent local midnight at or before `now`.
///
/// `utc_offset` is the local zone's signed offset in seconds; the result
/// lies at most one day back.
pub fn midnight_before(now: i64, utc_offset: i32) -> (m: i64)
    requires
        -8_000_000_000_000 < now < 8_000_000_000_000,
    ensures
        m == midnight_spec(now as int, utc_offset as int),
        m <= now,
        now - m < 86400,
{
    let local: i64 = now + (utc_offset as i64);
    // Shift into the non-negative range by a multiple of a day, so that
    // the machine remainder agrees with the mathematical one.
    let shifted: i64 = local + 86400 * 100_000_000;
    let rem: i64 = shifted % 86400;
    proof {
        lemma_mod_multiples_vanish(100_000_000, local as int, 86400);
    }
    local - rem - (utc_offset as i64)
}

/// The next instant on the daily lattice anchored at `midnight`, at or
/// after `now`: `rounds` rounds divide the day evenly, and the exact
/// rational interval is truncated to whole seconds only in this final
/// computation.
pub fn next_run_epoch(midnight: i64, rounds: u64, now: i64) -> (r: i64)
    requires
        1 <= rounds <= 0x8000_0000,
        midnight <= now,
        now - midnight <= 86400,
        -9_000_000_000_000 < midnight < 9_000_000_000_000,
    ensures
        r == next_run_spec(midnight as int, rounds as int, now as int),
        now <= r,
        r - midnight <= 2 * 86400,
{
    let ghost mid = midnight as int;
    let ghost r_ = rounds as int;
    let ghost now_ = now as int;
    let delta: i64 = now - midnight;
    proof {
        lemma_mul_inequality(delta as int, 86400, r_);
        lemma_mul_inequality(0, delta as int, r_);
    }
    let num: i64 = delta * (rounds as i64) + 86399;
    let k: i64 = num / 86400;
    proof {
        // k is at most rounds, so k * 86400 stays well inside i64.
        assert(k <= rounds) by {
            assert(num <= 86400 * r_ + 86399);
            lemma_div_is_ordered(num as int, 86400 * r_ + 86399, 86400);
            assert((86400 * r_ + 86399) / 86400 == r_) by {
                lemma_fundamental_div_mod_converse(86400 * r_ + 86399, 86400, r_, 86399);
            }
        }
        assert(k >= 0) by {
            lemma_div_is_ordered(0, num as int, 86400);
        }
        lemma_mul_inequality(k as int, r_, 86400);
        lemma_mul_inequality(0, k as int, 86400);
    }
    let step: i64 = (k * 86400) / (rounds as i64);
    proof {
        lemma_next_run_at_or_after(mid, r_, now_);
        assert(step <= 2 * 86400) by {
            assert(k * 86400 <= r_ * 86400);
            assert(r_ * 86400 <= r_ * 172800) by {
                lemma_mul_inequality(86400, 172800, r_);
            }
            assert((k * 86400) / r_ <= (r_ * 172800) / r_) by {
                assert(k as int * 86400 <= r_ * 172800);
                lemma_div_is_ordered(k as int * 86400, r_ * 172800, r_);
            }
            assert((r_ * 172800) / r_ == 172800) by {
                lemma_div_multiples_vanish(172800int, r_);
            }
        }
        assert(step >= 0) by {
            lemma_div_is_ordered(0, k as int * 86400, r_);
        }
    }
    midnight + step
}

} // verus!
