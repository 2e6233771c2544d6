use data_balance::api::latest_data_status;
use data_balance::sched::{
    get_scheduler_status, mark_started, new_scheduler_state, next_tick_delay_secs,
    record_initial_timeout, scheduler_begin_tick, scheduler_record_outcome, scheduler_run_once,
    scheduler_set_next_iteration, TickOutcome,
};
use data_balance::engine::InboxReading;
use data_balance::store::Store;
use data_balance::types::{DataStatus, GetDataStatusEvent};

const NOW: i64 = 1_723_908_422; // 2024-08-17T15:27:02Z

#[test]
fn tick_alignment() {
    assert_eq!(next_tick_delay_secs(30, 0, 3_600), 1_800);
    assert_eq!(next_tick_delay_secs(0, 0, 3_600), 3_600); // on the grid: wait a whole period
    assert_eq!(next_tick_delay_secs(59, 59, 3_600), 1);
    assert_eq!(next_tick_delay_secs(10, 30, 900), 270); // 630 into a 900 s grid
}

#[test]
fn state_lifecycle() {
    let mut state = new_scheduler_state(String::from("sqlite:///tmp/x.db"));
    assert!(!state.started);
    assert_eq!(state.db_url, "sqlite:///tmp/x.db");
    assert!(state.last_loop_at.is_none());
    mark_started(&mut state);
    assert!(state.started);
    record_initial_timeout(&mut state);
    assert_eq!(state.last_error.as_deref(), Some("initial run timed out"));
}

#[test]
fn begin_tick_stamps_loop() {
    let mut state = new_scheduler_state(String::new());
    scheduler_begin_tick(&mut state, NOW);
    assert_eq!(state.last_loop_at.as_deref(), Some("2024-08-17T15:27:02+00:00"));
    assert_eq!(state.last_event.as_deref(), Some("polling for data status"));
    scheduler_set_next_iteration(&mut state, NOW + 3_600);
    assert_eq!(
        state.next_iteration_at.as_deref(),
        Some("2024-08-17T16:27:02+00:00")
    );
}

#[test]
fn record_outcome_messages() {
    let mut state = new_scheduler_state(String::new());
    scheduler_record_outcome(&mut state, TickOutcome::Fresh { store_error: None });
    assert_eq!(state.last_event.as_deref(), Some("stored fresh data"));

    scheduler_record_outcome(
        &mut state,
        TickOutcome::Fresh { store_error: Some(String::from("disk full")) },
    );
    assert_eq!(state.last_error.as_deref(), Some("db insert error: disk full"));

    scheduler_record_outcome(&mut state, TickOutcome::Loading { is_stale: true });
    assert_eq!(state.last_event.as_deref(), Some("loading (stale=true)"));

    scheduler_record_outcome(
        &mut state,
        TickOutcome::EngineError { error: String::from("boom"), is_stale: true },
    );
    assert_eq!(state.last_error.as_deref(), Some("boom"));
    assert_eq!(state.last_event.as_deref(), Some("error (stale=true)"));

    scheduler_record_outcome(
        &mut state,
        TickOutcome::Unexpected { error: String::from("no route") },
    );
    assert_eq!(state.last_error.as_deref(), Some("unexpected error: no route"));
}

#[test]
fn run_once_stores_fresh_data() {
    let mut store = Store::new();
    let mut state = new_scheduler_state(String::new());
    let fresh = DataStatus {
        remaining_percentage: 73,
        remaining_data_mb: 74_752,
        date_time: NOW - 50,
    };
    let ev = scheduler_run_once(
        &mut store,
        &mut state,
        NOW,
        None, // no prior observation: stale, so the refresh branch runs
        true,
        String::new(),
        &vec![InboxReading::Listed(Some(fresh))],
    );
    assert!(matches!(ev, GetDataStatusEvent::Fresh { .. }));
    assert_eq!(store.len(), 1);
    let row = store.row(0);
    assert_eq!(row.remaining_data_mb, 74_752);
    assert_eq!(row.date_time, NOW - 50);
    assert_eq!(row.created_at, NOW);
    assert_eq!(state.last_event.as_deref(), Some("stored fresh data"));
    assert_eq!(state.last_loop_at.as_deref(), Some("2024-08-17T15:27:02+00:00"));
    assert_eq!(
        state.next_iteration_at.as_deref(),
        Some("2024-08-17T16:27:02+00:00")
    );
}

#[test]
fn run_once_records_timeout_without_store_write() {
    let mut store = Store::new();
    let mut state = new_scheduler_state(String::new());
    let ev = scheduler_run_once(
        &mut store,
        &mut state,
        NOW,
        None,
        true,
        String::new(),
        &vec![InboxReading::Listed(None); 20],
    );
    assert!(matches!(ev, GetDataStatusEvent::Error { .. }));
    assert_eq!(store.len(), 0);
    assert_eq!(state.last_error.as_deref(), Some("Timeout waiting for new SMS"));
    assert_eq!(state.last_event.as_deref(), Some("error (stale=true)"));
}

#[test]
fn run_once_fast_path_skips_store_write_conflict() {
    // The fresh observation is already stored: inserting again is a no-op.
    let mut store = Store::new();
    let fresh = DataStatus {
        remaining_percentage: 73,
        remaining_data_mb: 74_752,
        date_time: NOW - 50,
    };
    store.insert_if_absent(73, 74_752, NOW - 50, NOW - 50);
    let mut state = new_scheduler_state(String::new());
    let ev = scheduler_run_once(
        &mut store,
        &mut state,
        NOW,
        Some(fresh),
        true,
        String::new(),
        &Vec::new(),
    );
    assert!(matches!(ev, GetDataStatusEvent::Fresh { .. }));
    assert_eq!(store.len(), 1);
}

#[test]
fn scheduler_status_report() {
    let mut state = new_scheduler_state(String::from("url"));
    mark_started(&mut state);
    scheduler_begin_tick(&mut state, NOW);
    let dto = get_scheduler_status(Some(&state), true);
    assert!(dto.started);
    assert!(dto.running);
    assert_eq!(dto.db_url, "url");
    assert_eq!(dto.last_event.as_deref(), Some("polling for data status"));

    let none = get_scheduler_status(None, true);
    assert!(!none.started);
    assert!(!none.running);
    assert_eq!(none.last_event.as_deref(), Some("not started"));
    assert!(none.last_error.is_none());
}

#[test]
fn latest_data_status_reports_newest_row() {
    let mut store = Store::new();
    assert!(latest_data_status(&store).is_none());
    store.insert_if_absent(73, 74_752, NOW, NOW + 3);
    store.insert_if_absent(70, 70_000, NOW - 100, NOW + 4);
    let dto = latest_data_status(&store).expect("store is not empty");
    assert_eq!(dto.remaining_percentage, 73);
    assert_eq!(dto.remaining_data_mb, 74_752);
    assert_eq!(dto.date_time, "2024-08-17T15:27:02+00:00");
}
