use data_balance::gen::generate_test_data;
use data_balance::store::Store;

const NOW: i64 = 1_725_235_200 + 12 * 3_600; // 2024-09-02, midday UTC

#[test]
fn generated_history_stays_in_range() {
    let total = 102_400;
    let data = generate_test_data(total, NOW);
    assert!(!data.is_empty());
    for ds in &data {
        assert!((0..=100).contains(&ds.remaining_percentage));
        assert!((0..=total).contains(&ds.remaining_data_mb));
        assert!(ds.date_time <= NOW);
        assert!(ds.date_time >= NOW - 91 * 86_400);
    }
}

#[test]
fn generated_history_resets_on_month_firsts() {
    // The 90-day window ending 2024-09-02 spans two month boundaries; each
    // first of the month begins with the allowance reset to the plan total.
    let total = 102_400;
    let data = generate_test_data(total, NOW);
    assert!(data.iter().any(|ds| ds.remaining_data_mb == total));
}

#[test]
fn generated_history_enforces_minimum_plan() {
    let data = generate_test_data(1, NOW);
    assert!(data.iter().all(|ds| ds.remaining_data_mb <= 10_240));
    assert!(data.iter().any(|ds| ds.remaining_data_mb > 0));
}

#[test]
fn generated_history_varies_sample_times() {
    // The draws really spread the samples: with every draw collapsed to its
    // lower bound, every instant would sit exactly on an hour boundary.
    let data = generate_test_data(102_400, NOW);
    assert!(data.iter().any(|ds| ds.date_time % 3_600 != 0));
}

#[test]
fn generated_history_fills_a_store() {
    let data = generate_test_data(102_400, NOW);
    let mut store = Store::new();
    let mut inserted = 0usize;
    for ds in &data {
        if store.insert_if_absent(ds.remaining_percentage, ds.remaining_data_mb, ds.date_time, NOW)
            != 0
        {
            inserted += 1;
        }
    }
    assert_eq!(store.len(), inserted);
    assert!(store.len() >= 90); // at least one sample per generated day
    let latest = store.latest().expect("not empty");
    assert!(latest.date_time <= NOW);
}
