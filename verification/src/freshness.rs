//! When stored data still reflects the most recently closed trading session.

use crate::candle::LocalTime;
use vstd::prelude::*;

verus! {

/// The daily trading session, in seconds since local midnight: open from
/// `open` up to, but not including, `close`.
#[derive(Clone, Copy, Debug, PartialEq, Eq, Structural)]
pub struct MarketHours {
    pub open: u32,
    pub close: u32,
}

/// Position of a day in its week, counted from Monday as 0. Day 1 of the
/// calendar, 0001-01-01, is a Monday.
pub open spec fn weekday_index(day: int) -> int {
    (day - 1) % 7
}

/// Whether the day is a Saturday or a Sunday.
pub open spec fn weekend(day: int) -> bool {
    weekday_index(day) >= 5
}

/// Whether the market is in session at `now`.
pub open spec fn in_session(now: LocalTime, hours: MarketHours) -> bool {
    !weekend(now.day as int) && hours.open <= now.second < hours.close
}

/// Whether the session of `day` has closed by `now`.
pub open spec fn closed_by(day: int, now: LocalTime, hours: MarketHours) -> bool {
    day < now.day || (day == now.day && hours.close <= now.second)
}

/// The day itself, or the Friday before it where it falls on a weekend.
pub open spec fn weekday_on_or_before(day: int) -> int {
    if weekday_index(day) == 5 {
        day - 1
    } else if weekday_index(day) == 6 {
        day - 2
    } else {
        day
    }
}

/// The day of the most recent session close that is not after `now`.
pub open spec fn last_close_day(now: LocalTime, hours: MarketHours) -> int {
    if hours.close <= now.second {
        weekday_on_or_before(now.day as int)
    } else {
        weekday_on_or_before(now.day - 1)
    }
}

/// Whether data stored at `time` is still current at `now`: never while the
/// market is in session, else exactly when it was stored at or after the
/// most recent close.
pub open spec fn fresh(time: LocalTime, now: LocalTime, hours: MarketHours) -> bool {
    let day = last_close_day(now, hours);
    &&& !in_session(now, hours)
    &&& (time.day > day || (time.day == day && time.second >= hours.close))
}

/// The most recent close falls on a weekday, has happened by `now`, and no
/// later weekday's session has closed by `now`.
pub proof fn lemma_last_close(now: LocalTime, hours: MarketHours)
    ensures
        !weekend(last_close_day(now, hours)),
        closed_by(last_close_day(now, hours), now, hours),
        forall|d: int|
            last_close_day(now, hours) < d && !weekend(d) ==> !#[trigger] closed_by(d, now, hours),
        now.day - 3 <= last_close_day(now, hours) <= now.day,
{
    let day = last_close_day(now, hours);
    assert forall|d: int| day < d && !weekend(d) implies !#[trigger] closed_by(d, now, hours) by {
        if d < now.day {
            assert(d == now.day - 1 || d == now.day - 2);
        }
    }
}

/// While the market is in session nothing is current, whenever it was stored.
pub proof fn lemma_stale_in_session(time: LocalTime, now: LocalTime, hours: MarketHours)
    requires
        in_session(now, hours),
    ensures
        !fresh(time, now, hours),
{
}

/// What is stored later is current whenever what was stored earlier is.
pub proof fn lemma_later_is_fresher(
    earlier: LocalTime,
    later: LocalTime,
    now: LocalTime,
    hours: MarketHours,
)
    requires
        fresh(earlier, now, hours),
        earlier.day < later.day || (earlier.day == later.day && earlier.second <= later.second),
    ensures
        fresh(later, now, hours),
{
}

/// Whether `day` is a Saturday or a Sunday.
pub fn is_weekend(day: i32) -> (b: bool)
    ensures
        b == weekend(day as int),
{
    weekend_day(day as i64)
}

fn weekend_day(day: i64) -> (b: bool)
    requires
        -0x8000_0010 <= day <= 0x8000_0010,
    ensures
        b == weekend(day as int),
{
    // Shifts the day before `day` by a multiple of 7 that makes it positive.
    let shifted: i64 = day + 2_147_483_701;
    assert(shifted == (day - 1) + 7 * 306_783_386);
    shifted % 7 >= 5
}

/// Whether data stored at `time` is still current at `now`, given the
/// market's hours. Looks for the most recent session close by walking back
/// from today over weekends and over a session that has not closed yet.
pub fn is_upto_date(time: LocalTime, now: LocalTime, hours: MarketHours) -> (b: bool)
    ensures
        b == fresh(time, now, hours),
{
    let today: i64 = now.day as i64;
    if !weekend_day(today) && hours.open <= now.second && now.second < hours.close {
        return false;
    }
    let mut candidate: i64 = today;
    loop
        invariant_except_break
            today == now.day,
            today - 3 <= candidate <= today,
            forall|d: int|
                candidate < d <= today ==> weekend(d) || !#[trigger] closed_by(d, now, hours),
        ensures
            today - 3 <= candidate <= today,
            candidate == last_close_day(now, hours),
        decreases candidate - (today - 4),
    {
        if !weekend_day(candidate) {
            if candidate < today || hours.close <= now.second {
                proof {
                    lemma_last_close(now, hours);
                    let day = last_close_day(now, hours);
                    assert(closed_by(candidate as int, now, hours));
                    if day < candidate {
                    } else if candidate < day {
                        assert(weekend(day) || !closed_by(day, now, hours));
                    }
                }
                break ;
            }
        }
        proof {
            if candidate == today - 3 {
                assert(weekend(candidate as int));
                assert(weekend(today - 2) || !closed_by(today - 2, now, hours));
                assert(weekend(today - 1) || !closed_by(today - 1, now, hours));
            }
        }
        candidate -= 1;
    }
    time.day as i64 > candidate || (time.day as i64 == candidate && time.second >= hours.close)
}

} // verus!
