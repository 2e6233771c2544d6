//! Data model: observations, raw SMS records, scheduler status, and the
//! read-only transfer shapes of the query surface.
use vstd::prelude::*;

verus! {

/// One balance reading decoded from a carrier SMS: the remaining share of the
/// plan in percent, the remaining volume in megabytes, and the instant the
/// carrier reported it (seconds since the Unix epoch, UTC).
#[derive(Clone, Copy, Debug, PartialEq, Eq, Structural)]
pub struct DataStatus {
    pub remaining_percentage: i32,
    pub remaining_data_mb: i32,
    pub date_time: i64,
}

/// One stored observation: a `DataStatus` plus the surrogate row id and the
/// instant the row was inserted.
#[derive(Clone, Copy, Debug, PartialEq, Eq, Structural)]
pub struct DataStatusRow {
    pub id: i64,
    pub remaining_percentage: i32,
    pub remaining_data_mb: i32,
    pub date_time: i64,
    pub created_at: i64,
}

impl DataStatusRow {
    /// The observation carried by this row.
    pub open spec fn spec_status(self) -> DataStatus {
        DataStatus {
            remaining_percentage: self.remaining_percentage,
            remaining_data_mb: self.remaining_data_mb,
            date_time: self.date_time,
        }
    }

    pub fn status(&self) -> (r: DataStatus)
        ensures
            r == self.spec_status(),
    {
        DataStatus {
            remaining_percentage: self.remaining_percentage,
            remaining_data_mb: self.remaining_data_mb,
            date_time: self.date_time,
        }
    }
}

/// A raw inbound SMS as the router management surface exposes it. Up to three
/// fields may carry a timestamp, with different fidelity; `sender` is kept for
/// diagnostics only.
#[derive(Clone, Debug)]
pub struct Sms {
    pub id: String,
    pub message: String,
    pub timestamp: Option<String>,
    pub time: Option<String>,
    pub received: Option<String>,
    pub sender: Option<String>,
}

/// The scheduler's mutable status snapshot, read by the query surface.
#[derive(Clone, Debug)]
pub struct SchedulerState {
    pub started: bool,
    pub db_url: String,
    pub last_loop_at: Option<String>,
    pub last_event: Option<String>,
    pub last_error: Option<String>,
    pub next_iteration_at: Option<String>,
}

/// Outcome of one run of the freshness engine.
#[allow(inconsistent_fields)]
pub enum GetDataStatusEvent {
    /// No observation exists yet and this call did not wait for one.
    Loading { data_status: Option<DataStatus>, is_stale: bool },
    /// A qualifying observation exists.
    Fresh { data_status: DataStatus },
    /// A refresh was attempted and failed: the send failed, or no qualifying
    /// reply arrived before the timeout.
    Error { error: String, data_status: Option<DataStatus>, is_stale: bool },
}

/// The latest observation as the query surface reports it; `date_time` is an
/// ISO-8601 UTC instant.
#[derive(Clone, Debug)]
pub struct DataStatusDto {
    pub remaining_percentage: i32,
    pub remaining_data_mb: i32,
    pub date_time: String,
}

/// The scheduler status as the query surface reports it.
#[derive(Clone, Debug)]
pub struct SchedulerStatusDto {
    pub started: bool,
    pub running: bool,
    pub db_url: String,
    pub last_loop_at: Option<String>,
    pub last_event: Option<String>,
    pub last_error: Option<String>,
    pub next_iteration_at: Option<String>,
}

/// One bar of the daily-usage series: a calendar day (`yyyy-mm-dd`) and the
/// megabytes consumed on it.
#[derive(Clone, Debug)]
pub struct DailyUsagePointDto {
    pub date: String,
    pub used_mb: i32,
}

} // verus!
