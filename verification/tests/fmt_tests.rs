use data_balance::fmt::{
    format_local, format_megabytes, i64_to_string, pad2, resolve_db_url, u64_to_string,
};

#[test]
fn decimal_rendering() {
    assert_eq!(u64_to_string(0), "0");
    assert_eq!(u64_to_string(7), "7");
    assert_eq!(u64_to_string(102_400), "102400");
    assert_eq!(i64_to_string(-45), "-45");
    assert_eq!(i64_to_string(0), "0");
    assert_eq!(i64_to_string(i64::MIN), "-9223372036854775808");
}

#[test]
fn pad2_cases() {
    assert_eq!(pad2(5), "05");
    assert_eq!(pad2(0), "00");
    assert_eq!(pad2(9), "09");
    assert_eq!(pad2(10), "10");
    assert_eq!(pad2(59), "59");
}

#[test]
fn format_local_shows_the_instant_as_given() {
    assert_eq!(format_local("2024-08-17T15:27:02+00:00"), "2024-08-17T15:27:02+00:00");
}

#[test]
fn format_megabytes_cases() {
    assert_eq!(format_megabytes(0), "0 MB");
    assert_eq!(format_megabytes(999), "999 MB");
    assert_eq!(format_megabytes(-5), "-5 MB");
    assert_eq!(format_megabytes(1_000), "1 GB");
    assert_eq!(format_megabytes(1_050), "1.1 GB"); // tenths = 11
    assert_eq!(format_megabytes(1_949), "1.9 GB");
    assert_eq!(format_megabytes(1_951), "2 GB"); // tenths round to 20
    assert_eq!(format_megabytes(102_400), "102.4 GB");
    assert_eq!(format_megabytes(-1_500), "-1.5 GB");
}

#[test]
fn db_url_default_and_override() {
    assert_eq!(
        resolve_db_url(Some(String::from("postgres://x")), "/srv/app"),
        "postgres://x"
    );
    assert_eq!(
        resolve_db_url(None, "/srv/app"),
        "sqlite:///srv/app/data/data.db?mode=rwc"
    );
    assert_eq!(
        resolve_db_url(None, "rel/dir"),
        "sqlite:///rel/dir/data/data.db?mode=rwc"
    );
}
