//! Scheduler bookkeeping: the status snapshot's lifecycle, the alignment of
//! ticks to the wall-clock grid, and the per-tick procedure that runs the
//! freshness engine, persists a fresh observation and surfaces the outcome.
//!
//! The long-lived loop itself — timers, task liveness, the actual I/O — lives
//! outside the library; everything here is the decision and record-keeping
//! logic of one tick.
use vstd::prelude::*;

use crate::engine::{
    current_ok, evaluate_spec, get_data_status_fresh, poll_qualifies, polls_ok, reading_error,
    reading_failed, reading_obs, script_at, InboxReading,
};
use crate::store::{store_insert, Store};
use crate::timeconv::{rfc3339_string_of, secs_to_rfc3339, MAX_RENDERED_SECS};
use crate::types::{DataStatus, GetDataStatusEvent, SchedulerState, SchedulerStatusDto};

verus! {

/// Cadence of the scheduler, in minutes.
pub const SCHED_INTERVAL_MINUTES: u64 = 60;

/// Cadence of the scheduler, in seconds.
pub const SCHED_INTERVAL_SECS: i64 = 3600;

/// Staleness bound handed to the engine each tick: one minute under the
/// cadence.
pub const TICK_MAX_AGE_SECS: i64 = 3540;

/// How long one tick waits for a reply.
pub const TICK_TIMEOUT_SECS: i64 = 30;

/// Delay between inbox polls during the wait.
pub const TICK_POLL_SECS: i64 = 2;

/// The status snapshot as it stands before the scheduler's first loop.
pub fn new_scheduler_state(db_url: String) -> (s: SchedulerState)
    ensures
        s.started == false,
        s.db_url == db_url,
        s.last_loop_at is None,
        s.last_event is None,
        s.last_error is None,
        s.next_iteration_at is None,
{
    SchedulerState {
        started: false,
        db_url,
        last_loop_at: None,
        last_event: None,
        last_error: None,
        next_iteration_at: None,
    }
}

/// Marks the snapshot started; everything else stands.
pub fn mark_started(state: &mut SchedulerState)
    ensures
        final(state).started == true,
        final(state).db_url == old(state).db_url,
        final(state).last_loop_at == old(state).last_loop_at,
        final(state).last_event == old(state).last_event,
        final(state).last_error == old(state).last_error,
        final(state).next_iteration_at == old(state).next_iteration_at,
{
    state.started = true;
}

/// Records that the initial bounded run did not finish in time; scheduling
/// continues regardless.
pub fn record_initial_timeout(state: &mut SchedulerState)
    ensures
        match final(state).last_error {
            Some(e) => e@ == "initial run timed out"@,
            None => false,
        },
        final(state).started == old(state).started,
        final(state).db_url == old(state).db_url,
        final(state).last_loop_at == old(state).last_loop_at,
        final(state).last_event == old(state).last_event,
        final(state).next_iteration_at == old(state).next_iteration_at,
{
    state.last_error = Some(String::from_str("initial run timed out"));
}

/// Opens one tick: stamps the loop instant and announces the poll.
pub fn scheduler_begin_tick(state: &mut SchedulerState, now: i64)
    requires
        0 <= now <= MAX_RENDERED_SECS,
    ensures
        match final(state).last_loop_at {
            Some(t) => t@ == rfc3339_string_of(now),
            None => false,
        },
        match final(state).last_event {
            Some(e) => e@ == "polling for data status"@,
            None => false,
        },
        final(state).started == old(state).started,
        final(state).db_url == old(state).db_url,
        final(state).last_error == old(state).last_error,
        final(state).next_iteration_at == old(state).next_iteration_at,
{
    state.last_loop_at = Some(secs_to_rfc3339(now));
    state.last_event = Some(String::from_str("polling for data status"));
}

/// Stamps the instant of the next tick.
pub fn scheduler_set_next_iteration(state: &mut SchedulerState, next_at: i64)
    requires
        0 <= next_at <= MAX_RENDERED_SECS,
    ensures
        match final(state).next_iteration_at {
            Some(t) => t@ == rfc3339_string_of(next_at),
            None => false,
        },
        final(state).started == old(state).started,
        final(state).db_url == old(state).db_url,
        final(state).last_loop_at == old(state).last_loop_at,
        final(state).last_event == old(state).last_event,
        final(state).last_error == old(state).last_error,
{
    state.next_iteration_at = Some(secs_to_rfc3339(next_at));
}

/// One engine outcome, as the scheduler sees it after any store write:
/// fresh data stored (or the store's failure), still loading, the engine's
/// own error, or a failure outside the engine's protocol.
pub enum TickOutcome {
    Fresh { store_error: Option<String> },
    Loading { is_stale: bool },
    EngineError { error: String, is_stale: bool },
    Unexpected { error: String },
}

/// Records one outcome in the status snapshot: fresh data stored sets the
/// event; a store failure, an engine error or an unexpected error sets the
/// error, an engine outcome also the event.
pub fn scheduler_record_outcome(state: &mut SchedulerState, outcome: TickOutcome)
    ensures
        final(state).started == old(state).started,
        final(state).db_url == old(state).db_url,
        final(state).last_loop_at == old(state).last_loop_at,
        final(state).next_iteration_at == old(state).next_iteration_at,
        match outcome {
            TickOutcome::Fresh { store_error: None } => {
                &&& match final(state).last_event {
                    Some(e) => e@ == "stored fresh data"@,
                    None => false,
                }
                &&& final(state).last_error == old(state).last_error
            },
            TickOutcome::Fresh { store_error: Some(err) } => {
                &&& match final(state).last_error {
                    Some(e) => e@ == "db insert error: "@ + err@,
                    None => false,
                }
                &&& final(state).last_event == old(state).last_event
            },
            TickOutcome::Loading { is_stale } => {
                &&& match final(state).last_event {
                    Some(e) => e@ == (if is_stale {
                        "loading (stale=true)"@
                    } else {
                        "loading (stale=false)"@
                    }),
                    None => false,
                }
                &&& final(state).last_error == old(state).last_error
            },
            TickOutcome::EngineError { error, is_stale } => {
                &&& match final(state).last_error {
                    Some(e) => e@ == error@,
                    None => false,
                }
                &&& match final(state).last_event {
                    Some(e) => e@ == (if is_stale {
                        "error (stale=true)"@
                    } else {
                        "error (stale=false)"@
                    }),
                    None => false,
                }
            },
            TickOutcome::Unexpected { error } => {
                &&& match final(state).last_error {
                    Some(e) => e@ == "unexpected error: "@ + error@,
                    None => false,
                }
                &&& final(state).last_event == old(state).last_event
            },
        },
{
    match outcome {
        TickOutcome::Fresh { store_error } => {
            match store_error {
                None => {
                    state.last_event = Some(String::from_str("stored fresh data"));
                },
                Some(err) => {
                    let msg = String::from_str("db insert error: ").concat(err.as_str());
                    state.last_error = Some(msg);
                },
            }
        },
        TickOutcome::Loading { is_stale } => {
            let msg = if is_stale {
                String::from_str("loading (stale=true)")
            } else {
                String::from_str("loading (stale=false)")
            };
            state.last_event = Some(msg);
        },
        TickOutcome::EngineError { error, is_stale } => {
            state.last_error = Some(error);
            let msg = if is_stale {
                String::from_str("error (stale=true)")
            } else {
                String::from_str("error (stale=false)")
            };
            state.last_event = Some(msg);
        },
        TickOutcome::Unexpected { error } => {
            let msg = String::from_str("unexpected error: ").concat(error.as_str());
            state.last_error = Some(msg);
        },
    }
}

/// Seconds until the next tick of the sub-hour grid: the smallest positive
/// delay that lands `minute:second` plus the delay on a multiple of
/// `interval_secs`.
pub fn next_tick_delay_secs(minute: u64, second: u64, interval_secs: u64) -> (r: u64)
    requires
        minute <= 59,
        second <= 59,
        1 <= interval_secs <= 86_400,
    ensures
        r as int == ({
            let rem = (minute as int * 60 + second as int) % (interval_secs as int);
            if rem == 0 {
                interval_secs as int
            } else {
                interval_secs as int - rem
            }
        }),
        1 <= r <= interval_secs,
        (minute as int * 60 + second as int + r as int) % (interval_secs as int) == 0,
{
    let secs_in_hour: u64 = minute * 60 + second;
    let rem: u64 = secs_in_hour % interval_secs;
    let r: u64 = if rem == 0 {
        interval_secs
    } else {
        interval_secs - rem
    };
    proof {
        let x = secs_in_hour as int;
        let iv = interval_secs as int;
        assert((x + (r as int)) % iv == 0) by (nonlinear_arith)
            requires
                0 <= x,
                1 <= iv,
                r as int == (if x % iv == 0 {
                    iv
                } else {
                    iv - (x % iv)
                }),
        ;
    }
    r
}

/// One tick of the scheduler: stamp the loop, run the freshness engine —
/// with `force` off, the tick's staleness bound, timeout and poll delay —
/// over the given entry observation and poll script, persist a fresh
/// observation (a conflict on the instant is success with no change), record
/// the outcome and stamp the next iteration. Returns the engine's outcome;
/// the loading outcome cannot arise, since an absent observation counts as
/// stale.
pub fn scheduler_run_once(
    store: &mut Store,
    state: &mut SchedulerState,
    now: i64,
    entry: Option<DataStatus>,
    send_ok: bool,
    send_error: String,
    polls: &Vec<InboxReading>,
) -> (ev: GetDataStatusEvent)
    requires
        old(store).wf(),
        0 <= now,
        now + SCHED_INTERVAL_SECS <= MAX_RENDERED_SECS,
        current_ok(entry),
        polls_ok(polls@),
    ensures
        final(store).wf(),
        !(ev is Loading),
        // the engine's outcome, at the tick's parameters: a fresh entry
        // comes straight back
        evaluate_spec(false, now, TICK_MAX_AGE_SECS, entry) is ReturnFresh ==> ev == (
        GetDataStatusEvent::Fresh { data_status: entry->0 }),
        // a failed send is the outcome
        evaluate_spec(false, now, TICK_MAX_AGE_SECS, entry) is Refresh && !send_ok ==> match ev {
            GetDataStatusEvent::Error { error, data_status, is_stale } => error@ == send_error@
                && data_status == entry && is_stale,
            _ => false,
        },
        // after a sent request, the first qualifying reading wins; a failed
        // listing before one is the outcome; else the wait times out
        evaluate_spec(false, now, TICK_MAX_AGE_SECS, entry) is Refresh && send_ok ==> match ev {
            GetDataStatusEvent::Fresh { data_status } => exists|k: int|
                {
                    &&& 0 <= k
                    &&& #[trigger] (k * TICK_POLL_SECS) <= TICK_TIMEOUT_SECS
                    &&& reading_obs(script_at(polls@, k)) == Some(data_status)
                    &&& poll_qualifies(Some(data_status), now, TICK_MAX_AGE_SECS)
                    &&& forall|j: int|
                        0 <= j < k ==> !reading_failed(script_at(polls@, j)) && !poll_qualifies(
                            reading_obs(script_at(polls@, j)),
                            now,
                            TICK_MAX_AGE_SECS,
                        )
                },
            GetDataStatusEvent::Loading { .. } => false,
            GetDataStatusEvent::Error { error, data_status: _, is_stale } => is_stale && ((
            exists|k: int|
                {
                    &&& 0 <= k
                    &&& #[trigger] (k * TICK_POLL_SECS) <= TICK_TIMEOUT_SECS
                    &&& reading_failed(script_at(polls@, k))
                    &&& error@ == reading_error(script_at(polls@, k))
                    &&& forall|j: int|
                        0 <= j < k ==> !reading_failed(script_at(polls@, j)) && !poll_qualifies(
                            reading_obs(script_at(polls@, j)),
                            now,
                            TICK_MAX_AGE_SECS,
                        )
                }) || (error@ == "Timeout waiting for new SMS"@ && forall|k: int|
                0 <= k && #[trigger] (k * TICK_POLL_SECS) <= TICK_TIMEOUT_SECS
                    ==> !reading_failed(script_at(polls@, k)) && !poll_qualifies(
                    reading_obs(script_at(polls@, k)),
                    now,
                    TICK_MAX_AGE_SECS,
                ))),
        },
        match ev {
            GetDataStatusEvent::Fresh { data_status } => {
                &&& final(store).rows_seq() == store_insert(
                    old(store).rows_seq(),
                    old(store).spec_next_id(),
                    data_status.remaining_percentage,
                    data_status.remaining_data_mb,
                    data_status.date_time,
                    now,
                )
                &&& match final(state).last_event {
                    Some(e) => e@ == "stored fresh data"@,
                    None => false,
                }
                &&& final(state).last_error == old(state).last_error
            },
            GetDataStatusEvent::Error { error, data_status: _, is_stale } => {
                &&& final(store).rows_seq() == old(store).rows_seq()
                &&& match final(state).last_error {
                    Some(e) => e@ == error@,
                    None => false,
                }
                &&& match final(state).last_event {
                    Some(e) => e@ == (if is_stale {
                        "error (stale=true)"@
                    } else {
                        "error (stale=false)"@
                    }),
                    None => false,
                }
            },
            GetDataStatusEvent::Loading { .. } => false,
        },
        match final(state).last_loop_at {
            Some(t) => t@ == rfc3339_string_of(now),
            None => false,
        },
        match final(state).next_iteration_at {
            Some(t) => t@ == rfc3339_string_of((now + SCHED_INTERVAL_SECS) as i64),
            None => false,
        },
        final(state).started == old(state).started,
        final(state).db_url == old(state).db_url,
{
    scheduler_begin_tick(state, now);
    let ev = get_data_status_fresh(
        false,
        TICK_MAX_AGE_SECS,
        TICK_TIMEOUT_SECS,
        TICK_POLL_SECS,
        now,
        entry,
        send_ok,
        send_error,
        polls,
    );
    let out = match &ev {
        GetDataStatusEvent::Fresh { data_status } => {
            let ds = *data_status;
            let _rowid = store.insert_if_absent(
                ds.remaining_percentage,
                ds.remaining_data_mb,
                ds.date_time,
                now,
            );
            scheduler_record_outcome(state, TickOutcome::Fresh { store_error: None });
        },
        GetDataStatusEvent::Loading { data_status: _, is_stale } => {
            scheduler_record_outcome(state, TickOutcome::Loading { is_stale: *is_stale });
        },
        GetDataStatusEvent::Error { error, data_status: _, is_stale } => {
            scheduler_record_outcome(
                state,
                TickOutcome::EngineError { error: error.clone(), is_stale: *is_stale },
            );
        },
    };
    scheduler_set_next_iteration(state, now + SCHED_INTERVAL_SECS);
    ev
}

/// The status snapshot as the query surface reports it: the snapshot's
/// fields with the task's liveness, or the not-started default where no
/// snapshot exists yet.
pub fn get_scheduler_status(state: Option<&SchedulerState>, running: bool) -> (r:
    SchedulerStatusDto)
    ensures
        match state {
            Some(s) => {
                &&& r.started == s.started
                &&& r.running == running
                &&& r.db_url == s.db_url
                &&& r.last_loop_at == s.last_loop_at
                &&& r.last_event == s.last_event
                &&& r.last_error == s.last_error
                &&& r.next_iteration_at == s.next_iteration_at
            },
            None => {
                &&& r.started == false
                &&& r.running == false
                &&& r.db_url@ == Seq::<char>::empty()
                &&& r.last_loop_at is None
                &&& match r.last_event {
                    Some(e) => e@ == "not started"@,
                    None => false,
                }
                &&& r.last_error is None
                &&& r.next_iteration_at is None
            },
        },
{
    match state {
        Some(s) => SchedulerStatusDto {
            started: s.started,
            running,
            db_url: s.db_url.clone(),
            last_loop_at: clone_opt_string(&s.last_loop_at),
            last_event: clone_opt_string(&s.last_event),
            last_error: clone_opt_string(&s.last_error),
            next_iteration_at: clone_opt_string(&s.next_iteration_at),
        },
        None => SchedulerStatusDto {
            started: false,
            running: false,
            db_url: String::new(),
            last_loop_at: None,
            last_event: Some(String::from_str("not started")),
            last_error: None,
            next_iteration_at: None,
        },
    }
}

fn clone_opt_string(s: &Option<String>) -> (r: Option<String>)
    ensures
        r == *s,
{
    match s {
        Some(x) => Some(x.clone()),
        None => None,
    }
}

} // verus!
