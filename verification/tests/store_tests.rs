use data_balance::store::Store;

const T: i64 = 1_723_908_422;

#[test]
fn store_uniqueness() {
    let mut store = Store::new();
    let first = store.insert_if_absent(50, 51_200, T, T + 5);
    assert!(first >= 1);
    let second = store.insert_if_absent(60, 61_440, T, T + 9);
    assert_eq!(second, 0);
    assert_eq!(store.len(), 1);
    let row = store.row(0);
    assert_eq!(row.remaining_percentage, 50);
    assert_eq!(row.remaining_data_mb, 51_200);
    assert_eq!(row.date_time, T);
}

#[test]
fn insert_is_idempotent_under_repetition() {
    let mut store = Store::new();
    for _ in 0..5 {
        store.insert_if_absent(42, 1_000, T, T);
    }
    assert_eq!(store.len(), 1);
    assert_eq!(store.row(0).remaining_percentage, 42);
}

#[test]
fn latest_is_maximum_at() {
    let mut store = Store::new();
    store.insert_if_absent(50, 500, T + 100, T);
    store.insert_if_absent(60, 600, T + 300, T);
    store.insert_if_absent(70, 700, T + 200, T);
    let latest = store.latest().expect("store is not empty");
    assert_eq!(latest.date_time, T + 300);
    assert_eq!(latest.remaining_data_mb, 600);
}

#[test]
fn latest_none_on_empty() {
    let store = Store::new();
    assert!(store.latest().is_none());
}

#[test]
fn rows_kept_sorted_ascending() {
    let mut store = Store::new();
    store.insert_if_absent(1, 10, T + 30, T);
    store.insert_if_absent(2, 20, T + 10, T);
    store.insert_if_absent(3, 30, T + 20, T);
    assert_eq!(store.len(), 3);
    assert_eq!(store.row(0).date_time, T + 10);
    assert_eq!(store.row(1).date_time, T + 20);
    assert_eq!(store.row(2).date_time, T + 30);
}

#[test]
fn range_since_is_inclusive_and_ordered() {
    let mut store = Store::new();
    store.insert_if_absent(1, 10, T + 10, T);
    store.insert_if_absent(2, 20, T + 20, T);
    store.insert_if_absent(3, 30, T + 30, T);
    let rows = store.range_since(T + 20);
    assert_eq!(rows.len(), 2);
    assert_eq!(rows[0].date_time, T + 20);
    assert_eq!(rows[1].date_time, T + 30);
    let all = store.range_since(i64::MIN + 1);
    assert_eq!(all.len(), 3);
    let none = store.range_since(T + 31);
    assert!(none.is_empty());
}

#[test]
fn ids_grow_with_successful_inserts() {
    let mut store = Store::new();
    let a = store.insert_if_absent(1, 10, T + 1, T);
    let b = store.insert_if_absent(2, 20, T + 2, T);
    let c = store.insert_if_absent(3, 30, T + 1, T); // conflict
    assert_eq!(a, 1);
    assert_eq!(b, 2);
    assert_eq!(c, 0);
}
