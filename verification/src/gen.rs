//! The synthetic-history generator: about ninety days of plausible
//! observations, with the allowance reset to the plan total on the first of
//! each month.
//!
//! Randomness comes from a seeded generator of the `rand` crate behind
//! trusted wrappers; the contract holds of every draw: at least one
//! observation per full day of the window, every value in range, the
//! remaining volume never rising except at a monthly reset, and the first
//! observation of each month-first day being that reset to the plan total.
use vstd::prelude::*;
use vstd::arithmetic::div_mod::{
    lemma_fundamental_div_mod, lemma_fundamental_div_mod_converse_div,
    lemma_mod_division_less_than_divisor,
};

use crate::daily::SECS_PER_DAY;
use crate::timeconv::{day_of_month, month_day_of_day, MAX_RENDERED_SECS};
use crate::types::DataStatus;

verus! {

#[verifier::external_type_specification]
#[verifier::external_body]
pub struct ExStdRng(rand::rngs::StdRng);

/// Relies on rand's `SeedableRng::seed_from_u64` for `StdRng`: a generator
/// seeded from the given word.
#[verifier::external_body]
fn seed_rng(seed: u64) -> (r: rand::rngs::StdRng) {
    rand::SeedableRng::seed_from_u64(seed)
}

/// Relies on rand's `Rng::gen_range` over an inclusive range, which panics
/// only on an empty range and returns a value inside it.
#[verifier::external_body]
fn gen_range_i32(rng: &mut rand::rngs::StdRng, lo: i32, hi: i32) -> (r: i32)
    requires
        lo <= hi,
    ensures
        lo <= r <= hi,
{
    rand::Rng::gen_range(rng, lo..=hi)
}

/// The percentage a remaining volume amounts to: `round(r / total * 100)`,
/// clamped into 0 to 100.
fn pct_of(remaining: i32, total: i32) -> (r: i32)
    requires
        1 <= total,
        0 <= remaining,
    ensures
        0 <= r <= 100,
{
    let num: i64 = 200 * (remaining as i64) + (total as i64);
    let den: i64 = 2 * (total as i64);
    let p: i64 = num / den;
    if p > 100 {
        100
    } else if p < 0 {
        0
    } else {
        p as i32
    }
}

/// The plan size the generator uses: at least 10240 MB.
pub open spec fn plan_total(plan_total_mb: i32) -> int {
    if plan_total_mb >= 10240 {
        plan_total_mb as int
    } else {
        10240int
    }
}

/// The calendar day of a generated observation.
pub open spec fn obs_day(ds: DataStatus) -> int {
    ds.date_time as int / 86_400
}

/// Does a generated observation lie on the first day of a month?
pub open spec fn on_month_first(ds: DataStatus) -> bool {
    month_day_of_day(obs_day(ds) as i64) == 1
}

/// Synthesises observations for the ninety-one days ending at `now`: one to
/// three samples a day — so at least ninety observations — plus a reset to
/// the plan total in the first half hour of each first of a month. Every
/// observation lies inside the window with its percentage in 0 to 100 and
/// its remaining volume between 0 and the plan total (at least 10240 MB,
/// whatever the argument says); the remaining volume never rises from one
/// observation to the next except into one on a month-first day, and the
/// first observation of such a day is the reset, carrying the plan total.
pub fn generate_test_data(plan_total_mb: i32, now: i64) -> (r: Vec<DataStatus>)
    requires
        90 * SECS_PER_DAY <= now <= MAX_RENDERED_SECS,
    ensures
        r@.len() >= 90,
        forall|i: int|
            0 <= i < r@.len() ==> {
                &&& 0 <= #[trigger] r@[i].remaining_percentage <= 100
                &&& 0 <= r@[i].remaining_data_mb as int <= plan_total(plan_total_mb)
                &&& now - 91 * SECS_PER_DAY <= r@[i].date_time <= now
                &&& 0 <= r@[i].date_time
            },
        forall|i: int|
            0 <= i < r@.len() - 1 ==> ((#[trigger] r@[i]).remaining_data_mb >= r@[i
                + 1].remaining_data_mb || on_month_first(r@[i + 1])),
        forall|i: int|
            0 <= i < r@.len() && on_month_first(#[trigger] r@[i]) && (i == 0 || obs_day(r@[i - 1])
                != obs_day(r@[i])) ==> r@[i].remaining_data_mb as int == plan_total(plan_total_mb),
{
    let mut rng = seed_rng(42);
    let total: i32 = if plan_total_mb >= 10240 {
        plan_total_mb
    } else {
        10240
    };
    let start_day: i64 = (now - 90 * SECS_PER_DAY) / SECS_PER_DAY;
    let end_day: i64 = now / SECS_PER_DAY;
    proof {
        // the window's first day lies exactly ninety days before its last
        lemma_fundamental_div_mod(now as int, 86_400);
        lemma_mod_division_less_than_divisor(now as int, 86_400);
        assert(now as int - 90 * 86_400 == (end_day as int - 90) * 86_400 + (now as int % 86_400))
            by (nonlinear_arith)
            requires
                now as int == 86_400 * (now as int / 86_400) + (now as int % 86_400),
                end_day as int == now as int / 86_400,
        ;
        lemma_fundamental_div_mod_converse_div(
            now as int - 90 * 86_400,
            86_400,
            end_day as int - 90,
            now as int % 86_400,
        );
    }
    let mut out: Vec<DataStatus> = Vec::new();
    let mut remaining: i32 = if day_of_month(start_day) == 1 {
        total
    } else {
        gen_range_i32(&mut rng, (total / 10) * 3, total)
    };
    let mut day: i64 = start_day;
    while day <= end_day
        invariant
            10240 <= total,
            total as int == plan_total(plan_total_mb),
            0 <= remaining <= total,
            90 * SECS_PER_DAY <= now <= MAX_RENDERED_SECS,
            start_day as int == (now as int - 90 * 86_400) / 86_400,
            end_day as int == now as int / 86_400,
            start_day == end_day - 90,
            start_day <= day <= end_day + 1,
            0 <= start_day,
            day <= end_day ==> out@.len() >= day - start_day,
            day > end_day ==> out@.len() >= 90,
            day <= end_day && out@.len() > 0 ==> out@.last().remaining_data_mb >= remaining,
            forall|i: int| 0 <= i < out@.len() ==> obs_day(#[trigger] out@[i]) < day,
            forall|i: int|
                0 <= i < out@.len() ==> {
                    &&& 0 <= #[trigger] out@[i].remaining_percentage <= 100
                    &&& 0 <= out@[i].remaining_data_mb <= total
                    &&& now - 91 * SECS_PER_DAY <= out@[i].date_time <= now
                    &&& 0 <= out@[i].date_time
                },
            forall|i: int|
                0 <= i < out@.len() - 1 ==> ((#[trigger] out@[i]).remaining_data_mb >= out@[i
                    + 1].remaining_data_mb || on_month_first(out@[i + 1])),
            forall|i: int|
                0 <= i < out@.len() && on_month_first(#[trigger] out@[i]) && (i == 0 || obs_day(
                    out@[i - 1],
                ) != obs_day(out@[i])) ==> out@[i].remaining_data_mb as int == plan_total(
                    plan_total_mb,
                ),
        decreases end_day + 1 - day,
    {
        proof {
            assert(start_day * SECS_PER_DAY <= now - 90 * SECS_PER_DAY < (start_day + 1)
                * SECS_PER_DAY) by (nonlinear_arith)
                requires
                    start_day as int == (now as int - 90 * 86_400) / 86_400,
                    now as int >= 90 * 86_400,
            ;
            assert(end_day * SECS_PER_DAY <= now < (end_day + 1) * SECS_PER_DAY)
                by (nonlinear_arith)
                requires
                    end_day as int == now as int / 86_400,
                    now as int >= 0,
            ;
            assert(day * SECS_PER_DAY <= end_day * SECS_PER_DAY) by (nonlinear_arith)
                requires
                    day <= end_day,
            ;
            assert(start_day * SECS_PER_DAY <= day * SECS_PER_DAY) by (nonlinear_arith)
                requires
                    start_day <= day,
            ;
            assert(0 <= start_day * SECS_PER_DAY) by (nonlinear_arith)
                requires
                    start_day >= 0,
            ;
            assert(day < end_day ==> (day + 1) * SECS_PER_DAY <= end_day * SECS_PER_DAY)
                by (nonlinear_arith);
            assert((day + 1) * SECS_PER_DAY == day * SECS_PER_DAY + SECS_PER_DAY)
                by (nonlinear_arith);
        }
        let day_base: i64 = day * SECS_PER_DAY;
        let is_first = day_of_month(day) == 1;
        let mut reset_pushed = false;
        if is_first {
            remaining = total;
            let reset_min = gen_range_i32(&mut rng, 0, 29);
            let reset_sec = gen_range_i32(&mut rng, 0, 59);
            let reset_ts: i64 = day_base + (reset_min as i64) * 60 + (reset_sec as i64);
            proof {
                lemma_fundamental_div_mod_converse_div(
                    reset_ts as int,
                    86_400,
                    day as int,
                    reset_ts as int - (day as int) * 86_400,
                );
            }
            if reset_ts <= now {
                let pct = pct_of(remaining, total);
                out.push(
                    DataStatus {
                        remaining_percentage: pct,
                        remaining_data_mb: remaining,
                        date_time: reset_ts,
                    },
                );
                reset_pushed = true;
                proof {
                    assert(obs_day(out@.last()) == day as int);
                }
            }
            proof {
                if !reset_pushed {
                    assert(day_base + 1799 > now);
                }
            }
        }
        let pushes_live: bool = !is_first || reset_pushed;
        proof {
            // on every day but the last, the reset instant lies inside the
            // window, so a month first always starts with its reset
            assert(!pushes_live ==> day_base + 1799 > now);
            assert(day < end_day ==> pushes_live);
        }
        let k = gen_range_i32(&mut rng, 1, 3);
        let mut sample_times: Vec<i64> = Vec::new();
        let mut last_hour: i32 = if is_first {
            1
        } else {
            0
        };
        let mut j: i32 = 0;
        while j < k
            invariant
                1 <= k <= 3,
                0 <= j <= k,
                0 <= last_hour <= 23,
                is_first ==> last_hour >= 1,
                0 <= day_base,
                day_base + SECS_PER_DAY - 1 <= i64::MAX,
                sample_times@.len() == j,
                forall|i: int|
                    0 <= i < sample_times@.len() ==> day_base <= #[trigger] sample_times@[i]
                        < day_base + SECS_PER_DAY,
                forall|i: int|
                    0 <= i < sample_times@.len() ==> (is_first ==> #[trigger] sample_times@[i]
                        >= day_base + 3600),
            decreases k - j,
        {
            let remaining_slots: i32 = k - j;
            let cap_base: i32 = 23 - (remaining_slots - 1) * 2;
            let max_hour_cap: i32 = if cap_base >= last_hour {
                cap_base
            } else {
                last_hour
            };
            let hour = gen_range_i32(&mut rng, last_hour, max_hour_cap);
            let minute = gen_range_i32(&mut rng, 0, 59);
            let second = gen_range_i32(&mut rng, 0, 59);
            last_hour = if hour + 2 <= 23 {
                hour + 2
            } else {
                23
            };
            let ts: i64 = day_base + (hour as i64) * 3600 + (minute as i64) * 60 + (second as i64);
            sample_times.push(ts);
            j += 1;
        }
        let roll = gen_range_i32(&mut rng, 0, 99);
        let mut daily_usage: i32 = if roll < 55 {
            gen_range_i32(&mut rng, 0, 2_000)
        } else if roll < 85 {
            gen_range_i32(&mut rng, 2_000, 5_000)
        } else if roll < 98 {
            gen_range_i32(&mut rng, 5_000, 8_000)
        } else {
            gen_range_i32(&mut rng, 8_000, 10_240)
        };
        if daily_usage > remaining {
            daily_usage = remaining;
        }
        let mut remaining_usage: i32 = daily_usage;
        let n_samples = sample_times.len();
        let ghost base_len0 = out@.len();
        let mut si: usize = 0;
        while si < n_samples
            invariant
                n_samples == sample_times@.len(),
                0 <= si <= n_samples,
                n_samples == k,
                1 <= k <= 3,
                0 <= remaining_usage <= remaining,
                remaining <= total,
                10240 <= total,
                total as int == plan_total(plan_total_mb),
                90 * SECS_PER_DAY <= now <= MAX_RENDERED_SECS,
                0 <= day_base,
                day_base >= now - 91 * SECS_PER_DAY,
                day_base == day * SECS_PER_DAY,
                day <= end_day,
                end_day * SECS_PER_DAY <= now,
                (day + 1) * SECS_PER_DAY == day * SECS_PER_DAY + SECS_PER_DAY,
                day < end_day ==> (day + 1) * SECS_PER_DAY <= end_day * SECS_PER_DAY,
                forall|i: int|
                    0 <= i < sample_times@.len() ==> day_base <= #[trigger] sample_times@[i]
                        < day_base + SECS_PER_DAY,
                forall|i: int|
                    0 <= i < sample_times@.len() ==> (is_first ==> #[trigger] sample_times@[i]
                        >= day_base + 3600),
                pushes_live == (!is_first || reset_pushed),
                is_first == (month_day_of_day(day) == 1),
                !pushes_live ==> day_base + 1799 > now,
                pushes_live ==> (out@.len() == 0 || out@.last().remaining_data_mb >= remaining),
                is_first && pushes_live ==> out@.len() > 0 && obs_day(out@.last()) == day as int,
                base_len0 <= out@.len(),
                day < end_day ==> out@.len() >= base_len0 + si,
                forall|i: int| 0 <= i < out@.len() ==> obs_day(#[trigger] out@[i]) <= day,
                forall|i: int|
                    0 <= i < out@.len() ==> {
                        &&& 0 <= #[trigger] out@[i].remaining_percentage <= 100
                        &&& 0 <= out@[i].remaining_data_mb <= total
                        &&& now - 91 * SECS_PER_DAY <= out@[i].date_time <= now
                        &&& 0 <= out@[i].date_time
                    },
                forall|i: int|
                    0 <= i < out@.len() - 1 ==> ((#[trigger] out@[i]).remaining_data_mb >= out@[i
                        + 1].remaining_data_mb || on_month_first(out@[i + 1])),
                forall|i: int|
                    0 <= i < out@.len() && on_month_first(#[trigger] out@[i]) && (i == 0
                        || obs_day(out@[i - 1]) != obs_day(out@[i]))
                        ==> out@[i].remaining_data_mb as int == plan_total(plan_total_mb),
            decreases n_samples - si,
        {
            let ts = sample_times[si];
            proof {
                // on every day but the window's last, every sample lies
                // inside the window
                if day < end_day {
                    assert(ts < day_base + SECS_PER_DAY);
                    assert(ts <= now);
                }
            }
            if ts <= now {
                proof {
                    // a sample inside the window implies the day's pushes are
                    // live: a skipped reset pushes the whole day past `now`
                    if !pushes_live {
                        assert(is_first && !reset_pushed);
                        assert(sample_times@[si as int] >= day_base + 3600);
                        assert(false);
                    }
                    // the sample lies on day `day`
                    lemma_fundamental_div_mod_converse_div(
                        ts as int,
                        86_400,
                        day as int,
                        ts as int - (day as int) * 86_400,
                    );
                }
                let drop_i: i32 = if si + 1 == n_samples {
                    remaining_usage
                } else {
                    let even_share: i32 = remaining_usage / ((k - (si as i32)) as i32);
                    gen_range_i32(&mut rng, 0, if even_share >= 0 {
                        even_share
                    } else {
                        0
                    })
                };
                let d: i32 = if drop_i <= remaining_usage {
                    drop_i
                } else {
                    remaining_usage
                };
                remaining_usage = remaining_usage - d;
                remaining = remaining - d;
                let pct = pct_of(remaining, total);
                out.push(
                    DataStatus {
                        remaining_percentage: pct,
                        remaining_data_mb: remaining,
                        date_time: ts,
                    },
                );
                proof {
                    let newv = out@;
                    let last = newv.len() - 1;
                    assert(obs_day(newv[last]) == day as int);
                    assert forall|i: int|
                        0 <= i < newv.len() && on_month_first(#[trigger] newv[i]) && (i == 0
                            || obs_day(newv[i - 1]) != obs_day(newv[i]))
                            implies newv[i].remaining_data_mb as int == plan_total(
                        plan_total_mb,
                    ) by {
                        if i == last && on_month_first(newv[last]) {
                            // a sample on a month-first day follows the
                            // day's reset (or an earlier sample): same day
                            assert(is_first);
                            assert(obs_day(newv[last - 1]) == day as int);
                        }
                    }
                }
            }
            si += 1;
        }
        proof {
            if day < end_day {
                assert(out@.len() >= base_len0 + k);
            }
        }
        day += 1;
    }
    out
}

} // verus!
