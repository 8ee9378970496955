//! Linear vesting of the locked amount between a start and an end time.
use vstd::prelude::*;
use vstd::arithmetic::div_mod::{lemma_div_is_ordered, lemma_div_multiples_vanish};
use vstd::arithmetic::mul::{lemma_mul_inequality, lemma_mul_is_commutative};

verus! {

/// How much of `locked_amount` has vested at time `now`.
pub open spec fn vested_amount(now: i64, start_ts: i64, end_ts: i64, locked_amount: u64) -> int {
    if now < start_ts {
        0
    } else if now >= end_ts {
        locked_amount as int
    } else {
        (locked_amount as int * (now - start_ts)) / (end_ts - start_ts)
    }
}

/// What has vested and not yet been withdrawn, never negative.
pub open spec fn withdrawable_amount(
    now: i64,
    start_ts: i64,
    end_ts: i64,
    locked_amount: u64,
    locked_amount_withdrawn: u64,
) -> int {
    let vested = vested_amount(now, start_ts, end_ts, locked_amount);
    if vested > locked_amount_withdrawn {
        vested - locked_amount_withdrawn
    } else {
        0
    }
}

/// Between the start and the end, the vested part never exceeds the whole.
proof fn lemma_partial_vesting_bounded(elapsed: int, span: int, locked: int)
    requires
        0 <= elapsed < span,
        0 <= locked,
    ensures
        0 <= (locked * elapsed) / span <= locked,
        locked * elapsed <= locked * span,
{
    lemma_mul_inequality(elapsed, span, locked);
    lemma_mul_is_commutative(elapsed, locked);
    lemma_mul_is_commutative(span, locked);
    assert(0 <= locked * elapsed) by (nonlinear_arith)
        requires
            0 <= elapsed,
            0 <= locked,
    ;
    lemma_div_is_ordered(0, locked * elapsed, span);
    lemma_div_is_ordered(locked * elapsed, locked * span, span);
    lemma_div_multiples_vanish(locked, span);
}

/// The vested amount lies between zero and the locked amount.
pub proof fn lemma_vested_bounded(now: i64, start_ts: i64, end_ts: i64, locked_amount: u64)
    ensures
        0 <= vested_amount(now, start_ts, end_ts, locked_amount) <= locked_amount,
{
    if start_ts <= now < end_ts {
        lemma_partial_vesting_bounded(now - start_ts, end_ts - start_ts, locked_amount as int);
    }
}

/// Computes what vested at `now` and has not been withdrawn yet.
pub fn compute_withdrawable(
    now: i64,
    start_ts: i64,
    end_ts: i64,
    locked_amount: u64,
    locked_amount_withdrawn: u64,
) -> (r: u64)
    ensures
        r == withdrawable_amount(now, start_ts, end_ts, locked_amount, locked_amount_withdrawn),
{
    let vested: u64 = if now < start_ts {
        0
    } else if now >= end_ts {
        locked_amount
    } else {
        let elapsed: u128 = (now as i128 - start_ts as i128) as u128;
        let span: u128 = (end_ts as i128 - start_ts as i128) as u128;
        proof {
            lemma_partial_vesting_bounded(elapsed as int, span as int, locked_amount as int);
            lemma_mul_inequality(locked_amount as int, u64::MAX as int, span as int);
            lemma_mul_inequality(span as int, u64::MAX as int + 1, u64::MAX as int);
            lemma_mul_is_commutative(span as int, u64::MAX as int);
            lemma_mul_is_commutative(u64::MAX as int + 1, u64::MAX as int);
        }
        let product: u128 = locked_amount as u128 * elapsed;
        (product / span) as u64
    };
    proof {
        lemma_vested_bounded(now, start_ts, end_ts, locked_amount);
    }
    if vested > locked_amount_withdrawn {
        vested - locked_amount_withdrawn
    } else {
        0
    }
}

/// The withdrawable amount never decreases as time passes, never exceeds
/// what is still locked, and is all of it from the end time on (for a
/// schedule that does not end before it starts).
pub proof fn lemma_withdrawable_monotonic_and_bounded(
    now: i64,
    later: i64,
    start_ts: i64,
    end_ts: i64,
    locked_amount: u64,
    locked_amount_withdrawn: u64,
)
    requires
        now <= later,
        locked_amount_withdrawn <= locked_amount,
    ensures
        withdrawable_amount(now, start_ts, end_ts, locked_amount, locked_amount_withdrawn)
            <= withdrawable_amount(later, start_ts, end_ts, locked_amount, locked_amount_withdrawn),
        withdrawable_amount(now, start_ts, end_ts, locked_amount, locked_amount_withdrawn)
            <= locked_amount - locked_amount_withdrawn,
        start_ts <= end_ts <= now ==> withdrawable_amount(
            now,
            start_ts,
            end_ts,
            locked_amount,
            locked_amount_withdrawn,
        ) == locked_amount - locked_amount_withdrawn,
{
    lemma_vested_bounded(now, start_ts, end_ts, locked_amount);
    lemma_vested_bounded(later, start_ts, end_ts, locked_amount);
    if start_ts <= now && later < end_ts {
        let span = end_ts - start_ts;
        lemma_mul_inequality(now - start_ts, later - start_ts, locked_amount as int);
        lemma_mul_is_commutative(now - start_ts, locked_amount as int);
        lemma_mul_is_commutative(later - start_ts, locked_amount as int);
        lemma_div_is_ordered(
            locked_amount as int * (now - start_ts),
            locked_amount as int * (later - start_ts),
            span as int,
        );
    }
}

} // verus!
