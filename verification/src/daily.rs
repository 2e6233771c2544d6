//! The daily-usage projection: from raw cumulative-remaining readings to a
//! 90-day series of per-day megabytes consumed.
//!
//! For each calendar day (UTC) the last reading of the day stands for the
//! day. Walking the 90 days ending today, oldest first, the usage of a day
//! with a reading is the drop from the previously observed day's reading,
//! clamped at zero — a monthly allowance reset raises the remaining volume
//! and must not count as negative usage. Days without a reading use 0 and
//! leave the carried reading unchanged.
use vstd::prelude::*;

use crate::store::sorted_by_at;
use crate::timeconv::{date_string_of_day, day_to_date_string, MAX_RENDERED_DAY};
use crate::types::{DailyUsagePointDto, DataStatusRow};

verus! {

pub const SECS_PER_DAY: i64 = 86_400;

/// The calendar day (days since the Unix epoch) of a non-negative instant.
pub open spec fn day_of(t: i64) -> int {
    t as int / 86_400
}

/// The remaining megabytes of the last reading on day `d`, if the day has
/// one. The rows stand in ascending order of instant, so the last row of the
/// day decides.
pub open spec fn day_mb(rows: Seq<DataStatusRow>, d: int) -> Option<i32>
    decreases rows.len(),
{
    if rows.len() == 0 {
        None
    } else if day_of(rows.last().date_time) == d {
        Some(rows.last().remaining_data_mb)
    } else {
        day_mb(rows.drop_last(), d)
    }
}

/// The reading carried into position `i` of the window that starts at
/// `start_day`: the last observed day's remaining before `i`, or `None`
/// where no day before `i` in the window has a reading.
pub open spec fn carried_prev(rows: Seq<DataStatusRow>, start_day: int, i: int) -> Option<i32>
    decreases i,
{
    if i <= 0 {
        None
    } else {
        match day_mb(rows, start_day + (i - 1)) {
            Some(c) => Some(c),
            None => carried_prev(rows, start_day, i - 1),
        }
    }
}

/// Megabytes consumed on day `start_day + i` of the window: the clamped drop
/// from the carried reading, or 0 where either side is missing.
pub open spec fn used_on(rows: Seq<DataStatusRow>, start_day: int, i: int) -> int {
    match (carried_prev(rows, start_day, i), day_mb(rows, start_day + i)) {
        (Some(prev), Some(curr)) => if prev - curr > 0 {
            prev - curr
        } else {
            0
        },
        _ => 0,
    }
}

/// Daily usage is never negative.
pub proof fn lemma_usage_nonneg(rows: Seq<DataStatusRow>, start_day: int, i: int)
    ensures
        used_on(rows, start_day, i) >= 0,
{
}

/// Reset absorption: where the carried reading lies below the day's reading
/// (the allowance was reset between them), the day's usage is 0, not
/// negative.
pub proof fn lemma_reset_absorption(
    rows: Seq<DataStatusRow>,
    start_day: int,
    i: int,
    prev: i32,
    curr: i32,
)
    requires
        carried_prev(rows, start_day, i) == Some(prev),
        day_mb(rows, start_day + i) == Some(curr),
        prev < curr,
    ensures
        used_on(rows, start_day, i) == 0,
{
}

/// The last reading of day `d` among the rows, found from the newest row
/// backwards.
fn day_mb_exec(rows: &Vec<DataStatusRow>, d: i64) -> (r: Option<i32>)
    requires
        forall|i: int| 0 <= i < rows@.len() ==> rows@[i].date_time >= 0,
    ensures
        r == day_mb(rows@, d as int),
{
    let n = rows.len();
    proof {
        assert(rows@.take(n as int) =~= rows@);
    }
    let mut j: usize = n;
    while j > 0
        invariant
            n == rows@.len(),
            0 <= j <= n,
            forall|i: int| 0 <= i < rows@.len() ==> rows@[i].date_time >= 0,
            day_mb(rows@, d as int) == day_mb(rows@.take(j as int), d as int),
        decreases j,
    {
        let row = rows[j - 1];
        proof {
            assert(rows@.take(j as int).last() == rows@[j - 1]);
            assert(rows@.take(j as int).drop_last() =~= rows@.take(j - 1));
        }
        if row.date_time / SECS_PER_DAY == d {
            return Some(row.remaining_data_mb);
        }
        j -= 1;
    }
    proof {
        assert(rows@.take(0).len() == 0);
    }
    None
}

/// The 90-day usage series ending on day `today_day`: one point per calendar
/// day, oldest first, the day rendered as `yyyy-mm-dd` text and the usage
/// computed by `used_on`. The points are exactly 90, their days contiguous
/// and ascending, the last of them today, and no usage is negative.
pub fn get_daily_usage(rows: &Vec<DataStatusRow>, today_day: i64) -> (r: Vec<DailyUsagePointDto>)
    requires
        sorted_by_at(rows@),
        forall|i: int| 0 <= i < rows@.len() ==> rows@[i].date_time >= 0,
        forall|i: int| 0 <= i < rows@.len() ==> rows@[i].remaining_data_mb >= 0,
        89 <= today_day <= MAX_RENDERED_DAY,
    ensures
        r@.len() == 90,
        forall|i: int|
            0 <= i < 90 ==> r@[i].used_mb as int == used_on(rows@, today_day - 89, i),
        forall|i: int| 0 <= i < 90 ==> r@[i].used_mb >= 0,
        forall|i: int| 0 <= i < 90 ==> r@[i].date@ == date_string_of_day((today_day - 89 + i) as i64),
{
    let start_day: i64 = today_day - 89;
    let mut out: Vec<DailyUsagePointDto> = Vec::new();
    let mut prev: Option<i32> = None;
    let mut i: usize = 0;
    while i < 90
        invariant
            start_day == today_day - 89,
            89 <= today_day <= MAX_RENDERED_DAY,
            sorted_by_at(rows@),
            forall|k: int| 0 <= k < rows@.len() ==> rows@[k].date_time >= 0,
            forall|k: int| 0 <= k < rows@.len() ==> rows@[k].remaining_data_mb >= 0,
            0 <= i <= 90,
            out@.len() == i,
            prev == carried_prev(rows@, start_day as int, i as int),
            match prev {
                Some(p) => p >= 0,
                None => true,
            },
            forall|k: int|
                0 <= k < i ==> out@[k].used_mb as int == used_on(rows@, start_day as int, k),
            forall|k: int| 0 <= k < i ==> out@[k].used_mb >= 0,
            forall|k: int|
                0 <= k < i ==> out@[k].date@ == date_string_of_day((start_day + k) as i64),
        decreases 90 - i,
    {
        let d: i64 = start_day + (i as i64);
        let curr = day_mb_exec(rows, d);
        proof {
            lemma_day_mb_nonneg(rows@, d as int);
        }
        let used: i32 = match (prev, curr) {
            (Some(p), Some(c)) => if p > c {
                p - c
            } else {
                0
            },
            _ => 0,
        };
        let date = day_to_date_string(d);
        out.push(DailyUsagePointDto { date, used_mb: used });
        if curr.is_some() {
            prev = curr;
        }
        i += 1;
    }
    out
}

/// Readings of non-negative rows are non-negative.
proof fn lemma_day_mb_nonneg(rows: Seq<DataStatusRow>, d: int)
    requires
        forall|i: int| 0 <= i < rows.len() ==> rows[i].remaining_data_mb >= 0,
    ensures
        match day_mb(rows, d) {
            Some(c) => c >= 0,
            None => true,
        },
    decreases rows.len(),
{
    if rows.len() > 0 && day_of(rows.last().date_time) != d {
        lemma_day_mb_nonneg(rows.drop_last(), d);
    }
}

} // verus!
