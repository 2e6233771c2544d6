use data_balance::daily::get_daily_usage;
use data_balance::types::DataStatusRow;

const SECS_PER_DAY: i64 = 86_400;

// Day numbers (days since the Unix epoch) around a month boundary:
// 19966 = 2024-08-31, 19967 = 2024-09-01, 19968 = 2024-09-02.
const D: i64 = 19_966;

fn row(id: i64, mb: i32, ts: i64) -> DataStatusRow {
    DataStatusRow {
        id,
        remaining_percentage: 50,
        remaining_data_mb: mb,
        date_time: ts,
        created_at: ts,
    }
}

#[test]
fn daily_usage_reset() {
    // Day D ends with 1000 MB remaining; D+1 is the first of the month, with
    // a reset to 102400 MB at 00:05 and 100000 MB remaining at 22:00.
    let rows = vec![
        row(1, 1_000, D * SECS_PER_DAY + 23 * 3600),
        row(2, 102_400, (D + 1) * SECS_PER_DAY + 5 * 60),
        row(3, 100_000, (D + 1) * SECS_PER_DAY + 22 * 3600),
        row(4, 99_000, (D + 2) * SECS_PER_DAY + 10 * 3600),
    ];
    let today = D + 2;
    let usage = get_daily_usage(&rows, today);
    assert_eq!(usage.len(), 90);
    // D is at index 87 of the 90-day window ending at D+2
    assert_eq!(usage[87].used_mb, 0); // first observed day: no prior reading
    assert_eq!(usage[88].used_mb, 0); // reset absorbed: max(1000 - 100000, 0)
    assert_eq!(usage[89].used_mb, 1_000); // carried prev = 100000, now 99000
    assert_eq!(usage[87].date, "2024-08-31");
    assert_eq!(usage[88].date, "2024-09-01");
    assert_eq!(usage[89].date, "2024-09-02");
}

#[test]
fn daily_usage_window_shape() {
    let usage = get_daily_usage(&Vec::new(), D);
    assert_eq!(usage.len(), 90);
    assert!(usage.iter().all(|p| p.used_mb == 0));
    assert_eq!(usage[89].date, "2024-08-31");
    assert_eq!(usage[0].date, "2024-06-03"); // 89 days earlier
}

#[test]
fn daily_usage_gap_carries_reading_forward() {
    // A reading, a silent day, then a lower reading: the whole drop counts on
    // the day it was observed.
    let x = D - 10;
    let rows = vec![
        row(1, 5_000, x * SECS_PER_DAY + 3600),
        row(2, 4_000, (x + 2) * SECS_PER_DAY + 3600),
    ];
    let usage = get_daily_usage(&rows, D);
    let ix = (x - (D - 89)) as usize;
    assert_eq!(usage[ix].used_mb, 0);
    assert_eq!(usage[ix + 1].used_mb, 0); // no reading: unknown, carry forward
    assert_eq!(usage[ix + 2].used_mb, 1_000);
}

#[test]
fn daily_usage_last_reading_of_day_wins() {
    let x = D - 5;
    let rows = vec![
        row(1, 9_000, x * SECS_PER_DAY + 3600),
        row(2, 8_000, x * SECS_PER_DAY + 7200), // later the same day
        row(3, 7_500, (x + 1) * SECS_PER_DAY + 3600),
    ];
    let usage = get_daily_usage(&rows, D);
    let ix = (x - (D - 89)) as usize;
    assert_eq!(usage[ix].used_mb, 0);
    assert_eq!(usage[ix + 1].used_mb, 500); // 8000 - 7500, not 9000 - 7500
}

#[test]
fn daily_usage_never_negative() {
    // Rising readings everywhere: every bar clamps to zero.
    let x = D - 3;
    let rows = vec![
        row(1, 1_000, x * SECS_PER_DAY + 100),
        row(2, 2_000, (x + 1) * SECS_PER_DAY + 100),
        row(3, 3_000, (x + 2) * SECS_PER_DAY + 100),
    ];
    let usage = get_daily_usage(&rows, D);
    assert!(usage.iter().all(|p| p.used_mb >= 0));
}
