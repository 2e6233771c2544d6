use data_balance::engine::{
    balance_keyword, balance_shortcode, evaluate, get_data_status_fresh, most_recent_data_status,
    poll_step, EvalDecision, InboxReading, PollDecision,
};
use data_balance::types::{DataStatus, GetDataStatusEvent, Sms};

const NOW: i64 = 1_723_908_422;

fn obs(mb: i32, at: i64) -> DataStatus {
    DataStatus {
        remaining_percentage: 50,
        remaining_data_mb: mb,
        date_time: at,
    }
}

fn balance_sms(id: &str, at_iso: &str) -> Sms {
    Sms {
        id: String::from(id),
        message: String::from("Dati: hai ancora a disposizione il 73% di 100,0 GIGA di traffico"),
        timestamp: Some(String::from(at_iso)),
        time: None,
        received: None,
        sender: Some(String::from("4155")),
    }
}

#[test]
fn freshness_fast_path_returns_without_send() {
    // A fresh observation and force off: the engine returns it even though
    // the send would fail, showing the refresh branch is never taken.
    let entry = obs(1_000, NOW - 100);
    let ev = get_data_status_fresh(
        false,
        3_540,
        30,
        2,
        NOW,
        Some(entry),
        false,
        String::from("send must not happen"),
        &Vec::new(),
    );
    match ev {
        GetDataStatusEvent::Fresh { data_status } => assert_eq!(data_status, entry),
        _ => panic!("expected the fresh fast path"),
    }
}

#[test]
fn freshness_timeout() {
    // Stale entry, send succeeds, the inbox never shows a newer reply: the
    // engine times out. With poll=2 and timeout=30 it inspects readings 0..=15.
    let entry = obs(1_000, NOW - 2 * 3_540);
    let polls: Vec<InboxReading> = vec![InboxReading::Listed(None); 20];
    let ev = get_data_status_fresh(
        false,
        3_540,
        30,
        2,
        NOW,
        Some(entry),
        true,
        String::new(),
        &polls,
    );
    match ev {
        GetDataStatusEvent::Error { error, is_stale, .. } => {
            assert_eq!(error, "Timeout waiting for new SMS");
            assert!(is_stale);
        }
        _ => panic!("expected a timeout"),
    }
}

#[test]
fn refresh_returns_newer_observation() {
    let entry = obs(1_000, NOW - 2 * 3_540);
    let fresh = obs(900, NOW - 50);
    let polls = vec![
        InboxReading::Listed(None),
        InboxReading::Listed(None),
        InboxReading::Listed(Some(fresh)),
    ];
    let ev = get_data_status_fresh(
        false,
        3_540,
        30,
        2,
        NOW,
        Some(entry),
        true,
        String::new(),
        &polls,
    );
    match ev {
        GetDataStatusEvent::Fresh { data_status } => {
            assert_eq!(data_status, fresh);
            assert!(data_status.date_time > entry.date_time);
        }
        _ => panic!("expected fresh data from the refresh branch"),
    }
}

#[test]
fn stale_reply_does_not_qualify() {
    // The inbox only ever shows the old observation again: it never
    // qualifies, so the engine times out rather than return stale data.
    let entry = obs(1_000, NOW - 2 * 3_540);
    let polls = vec![InboxReading::Listed(Some(entry)); 20];
    let ev = get_data_status_fresh(
        false,
        3_540,
        30,
        2,
        NOW,
        Some(entry),
        true,
        String::new(),
        &polls,
    );
    assert!(matches!(ev, GetDataStatusEvent::Error { .. }));
}

#[test]
fn send_failure_is_reported() {
    let entry = obs(1_000, NOW - 2 * 3_540);
    let ev = get_data_status_fresh(
        false,
        3_540,
        30,
        2,
        NOW,
        Some(entry),
        false,
        String::from("MIKROTIK_URL not set"),
        &Vec::new(),
    );
    match ev {
        GetDataStatusEvent::Error { error, data_status, is_stale } => {
            assert_eq!(error, "MIKROTIK_URL not set");
            assert_eq!(data_status, Some(entry));
            assert!(is_stale);
        }
        _ => panic!("expected the send error"),
    }
}

#[test]
fn force_refreshes_even_when_fresh() {
    let entry = obs(1_000, NOW - 100);
    let newer = obs(990, NOW - 10);
    let polls = vec![InboxReading::Listed(Some(newer))];
    let ev = get_data_status_fresh(
        true,
        3_540,
        30,
        2,
        NOW,
        Some(entry),
        true,
        String::new(),
        &polls,
    );
    match ev {
        GetDataStatusEvent::Fresh { data_status } => assert_eq!(data_status, newer),
        _ => panic!("expected fresh data"),
    }
}

#[test]
fn listing_failure_is_reported() {
    // A failed inbox listing during the wait ends it as an Error outcome.
    let entry = obs(1_000, NOW - 2 * 3_540);
    let polls = vec![
        InboxReading::Listed(None),
        InboxReading::Failed(String::from("inbox listing failed")),
    ];
    let ev = get_data_status_fresh(
        false,
        3_540,
        30,
        2,
        NOW,
        Some(entry),
        true,
        String::new(),
        &polls,
    );
    match ev {
        GetDataStatusEvent::Error { error, is_stale, .. } => {
            assert_eq!(error, "inbox listing failed");
            assert!(is_stale);
        }
        _ => panic!("expected the listing failure"),
    }
}

#[test]
fn evaluate_decisions() {
    let fresh = obs(1_000, NOW - 100);
    let stale = obs(1_000, NOW - 10_000);
    assert_eq!(
        evaluate(false, NOW, 3_540, &Some(fresh)),
        EvalDecision::ReturnFresh(fresh)
    );
    assert_eq!(evaluate(false, NOW, 3_540, &Some(stale)), EvalDecision::Refresh);
    assert_eq!(evaluate(false, NOW, 3_540, &None), EvalDecision::Refresh);
    assert_eq!(evaluate(true, NOW, 3_540, &Some(fresh)), EvalDecision::Refresh);
}

#[test]
fn poll_step_decisions() {
    let fresh = obs(1_000, NOW - 100);
    let old = obs(1_000, NOW - 10_000);
    // a qualifying reading wins even at the deadline
    assert_eq!(
        poll_step(NOW, NOW, NOW + 100, 3_540, 30, &Some(fresh)),
        PollDecision::Fresh(fresh)
    );
    assert_eq!(
        poll_step(NOW, NOW, NOW + 31, 3_540, 30, &Some(old)),
        PollDecision::TimedOut
    );
    assert_eq!(poll_step(NOW, NOW, NOW + 30, 3_540, 30, &None), PollDecision::Continue);
}

#[test]
fn most_recent_prefers_newest_and_later_entries() {
    let a = balance_sms("*1", "2024-08-17T10:00:00Z");
    let b = balance_sms("*2", "2024-08-17T15:27:02Z");
    let c = Sms {
        id: String::from("*3"),
        message: String::from("Benvenuto in WindTre"),
        timestamp: Some(String::from("2024-08-17T23:00:00Z")),
        time: None,
        received: None,
        sender: None,
    };
    // c is newest but does not decode; b wins over a
    let r = most_recent_data_status(&vec![a, c, b]).expect("something decodes");
    assert_eq!(r.date_time, NOW);
    assert_eq!(r.remaining_data_mb, 74_752);
}

#[test]
fn most_recent_none_when_nothing_decodes() {
    let c = Sms {
        id: String::from("*3"),
        message: String::from("Benvenuto in WindTre"),
        timestamp: Some(String::from("2024-08-17T23:00:00Z")),
        time: None,
        received: None,
        sender: None,
    };
    assert!(most_recent_data_status(&vec![c]).is_none());
    assert!(most_recent_data_status(&vec![]).is_none());
}

#[test]
fn carrier_constants() {
    assert_eq!(balance_shortcode(), "4155");
    assert_eq!(balance_keyword(), "Dati");
}
