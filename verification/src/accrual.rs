use vstd::prelude::*;

use crate::types::{Stream, StreamStatus};

verus! {

/// The time up to which a stream accrues when asked at `now`: `now`, cut at
/// the stop time of a stream that has one, and, for a paused stream, at the
/// moment it was paused.
pub open spec fn accrual_end(stream: Stream, now: u64) -> int {
    let capped: int = if stream.stop_time > 0 && stream.stop_time < now {
        stream.stop_time as int
    } else {
        now as int
    };
    if stream.status == StreamStatus::Paused && stream.paused_at < capped {
        stream.paused_at as int
    } else {
        capped
    }
}

/// The seconds that have accrued since the employee was last paid.
pub open spec fn accrued_seconds(stream: Stream, now: u64) -> int {
    let end = accrual_end(stream, now);
    if end > stream.last_withdraw_time {
        end - stream.last_withdraw_time
    } else {
        0
    }
}

/// What is still held for a stream: deposit less withdrawals.
pub open spec fn remaining_balance(stream: Stream) -> int {
    stream.deposit - stream.withdrawn
}

pub open spec fn min_int(a: int, b: int) -> int {
    if a <= b { a } else { b }
}

/// What the employee can withdraw at `now`: the pay accrued since the last
/// withdrawal at the stream's rate, but no more than the remaining balance,
/// never negative, and nothing at all once the stream is exhausted or
/// cancelled. (The cap at `i128::MAX` only matters for values that no
/// sequence of operations produces.)
pub open spec fn claimable_spec(stream: Stream, now: u64) -> int {
    if stream.status == StreamStatus::Active || stream.status == StreamStatus::Paused {
        let earned = accrued_seconds(stream, now) * stream.rate_per_second;
        let owed = min_int(min_int(earned, remaining_balance(stream)), i128::MAX as int);
        if owed > 0 { owed } else { 0 }
    } else {
        0
    }
}

/// Computes [`claimable_spec`].
pub fn claimable_amount(stream: &Stream, now: u64) -> (amount: i128)
    ensures
        amount == claimable_spec(*stream, now),
        0 <= amount,
{
    if !(stream.status == StreamStatus::Active || stream.status == StreamStatus::Paused) {
        return 0;
    }
    let mut end = now;
    if stream.stop_time > 0 && stream.stop_time < end {
        end = stream.stop_time;
    }
    if stream.status == StreamStatus::Paused && stream.paused_at < end {
        end = stream.paused_at;
    }
    assert(end == accrual_end(*stream, now));
    if end <= stream.last_withdraw_time {
        assert(accrued_seconds(*stream, now) == 0);
        return 0;
    }
    let elapsed: i128 = (end - stream.last_withdraw_time) as i128;
    let rate = stream.rate_per_second;
    let earned: i128 = match elapsed.checked_mul(rate) {
        Some(x) => x,
        None => {
            if rate > 0 {
                assert(elapsed * rate > i128::MAX) by (nonlinear_arith)
                    requires
                        elapsed >= 1,
                        rate > 0,
                        elapsed * rate > i128::MAX || elapsed * rate < i128::MIN,
                ;
                i128::MAX
            } else {
                assert(elapsed * rate < i128::MIN) by (nonlinear_arith)
                    requires
                        elapsed >= 1,
                        rate <= 0,
                        elapsed * rate > i128::MAX || elapsed * rate < i128::MIN,
                ;
                i128::MIN
            }
        },
    };
    let remaining: i128 = match stream.deposit.checked_sub(stream.withdrawn) {
        Some(x) => x,
        None => if stream.withdrawn < 0 {
            i128::MAX
        } else {
            i128::MIN
        },
    };
    let owed = if earned <= remaining {
        earned
    } else {
        remaining
    };
    if owed > 0 {
        owed
    } else {
        0
    }
}

/// What is claimable never exceeds what remains of the deposit.
pub proof fn law_claimable_within_remaining(stream: Stream, now: u64)
    ensures
        0 <= claimable_spec(stream, now),
        claimable_spec(stream, now) > 0 ==> claimable_spec(stream, now) <= remaining_balance(stream),
{
}

} // verus!
