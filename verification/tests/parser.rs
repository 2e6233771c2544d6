use data_balance::parse::{parse_data_status_from_sms, parse_router_time, parse_sms_message, sms_date};
use data_balance::types::Sms;

fn sms(
    message: &str,
    timestamp: Option<&str>,
    time: Option<&str>,
    received: Option<&str>,
) -> Sms {
    Sms {
        id: String::from("*1"),
        message: String::from(message),
        timestamp: timestamp.map(String::from),
        time: time.map(String::from),
        received: received.map(String::from),
        sender: Some(String::from("4155")),
    }
}

const TS: i64 = 1_723_908_422; // 2024-08-17T15:27:02Z

#[test]
fn parser_happy_path() {
    let body = "Dati: hai ancora a disposizione il 73% di 100,0 GIGA di traffico";
    let ds = parse_sms_message(body, TS).expect("balance reply must parse");
    assert_eq!(ds.remaining_percentage, 73);
    assert_eq!(ds.remaining_data_mb, 74_752); // round(0.73 * 102400)
    assert_eq!(ds.date_time, TS);
}

#[test]
fn parser_comma_decimal() {
    let body = "Dati: hai ancora a disposizione il 10% di 50,5 GIGA.";
    let ds = parse_sms_message(body, TS).expect("balance reply must parse");
    assert_eq!(ds.remaining_percentage, 10);
    // total = round(50.5 * 1024) = 51712; remaining = round(0.10 * 51712) = 5171
    assert_eq!(ds.remaining_data_mb, 5_171);
}

#[test]
fn parser_miss() {
    assert!(parse_sms_message("Benvenuto in WindTre", TS).is_none());
}

#[test]
fn parser_integer_total() {
    let body = "Dati: hai ancora a disposizione il 50% di 100 GIGA di traffico";
    let ds = parse_sms_message(body, TS).expect("must parse");
    assert_eq!(ds.remaining_data_mb, 51_200);
}

#[test]
fn parser_leading_text_ignored() {
    let body = "Gentile cliente. Dati: hai ancora a disposizione il 73% di 100,0 GIGA di traffico";
    let ds = parse_sms_message(body, TS).expect("must parse");
    assert_eq!(ds.remaining_percentage, 73);
}

#[test]
fn parser_two_commas_is_a_miss() {
    let body = "Dati: hai ancora a disposizione il 10% di 1,2,3 GIGA.";
    assert!(parse_sms_message(body, TS).is_none());
}

#[test]
fn parser_comma_only_is_a_miss() {
    let body = "Dati: hai ancora a disposizione il 10% di , GIGA.";
    assert!(parse_sms_message(body, TS).is_none());
}

#[test]
fn parser_missing_giga_is_a_miss() {
    let body = "Dati: hai ancora a disposizione il 10% di 50,5 MEGA.";
    assert!(parse_sms_message(body, TS).is_none());
}

#[test]
fn parser_huge_percent_is_a_miss() {
    let body = "Dati: hai ancora a disposizione il 99999999999% di 1,0 GIGA.";
    assert!(parse_sms_message(body, TS).is_none());
}

#[test]
fn parser_percent_above_100_is_a_miss() {
    // an observation's percentage lies in 0 to 100
    let body = "Dati: hai ancora a disposizione il 500% di 1,0 GIGA.";
    assert!(parse_sms_message(body, TS).is_none());
    let edge = "Dati: hai ancora a disposizione il 101% di 1,0 GIGA.";
    assert!(parse_sms_message(edge, TS).is_none());
    let full = "Dati: hai ancora a disposizione il 100% di 1,0 GIGA.";
    assert_eq!(parse_sms_message(full, TS).unwrap().remaining_percentage, 100);
}

#[test]
fn parser_rounds_long_fractions_exactly() {
    // 0.00048828125 GiB is exactly half a megabyte: rounds up to 1 MB
    let body = "Dati: hai ancora a disposizione il 100% di 0,00048828125 GIGA.";
    let ds = parse_sms_message(body, TS).expect("must parse");
    assert_eq!(ds.remaining_data_mb, 1);
    // just under half a megabyte: rounds down to 0, even though the first
    // nine fractional digits are the same
    let under = "Dati: hai ancora a disposizione il 100% di 0,00048828124999999999 GIGA.";
    let ds = parse_sms_message(under, TS).expect("must parse");
    assert_eq!(ds.remaining_data_mb, 0);
    // just over half, with the deciding digit far out: rounds up
    let over = "Dati: hai ancora a disposizione il 100% di 0,000488281250000000001 GIGA.";
    let ds = parse_sms_message(over, TS).expect("must parse");
    assert_eq!(ds.remaining_data_mb, 1);
}

#[test]
fn parser_purity_repeated_calls() {
    let body = "Dati: hai ancora a disposizione il 73% di 100,0 GIGA di traffico";
    let first = parse_sms_message(body, TS);
    let second = parse_sms_message(body, TS);
    assert_eq!(first, second);
}

#[test]
fn sms_date_from_iso_timestamp() {
    let s = sms("x", Some("2024-08-17T15:27:02Z"), None, None);
    assert_eq!(sms_date(&s), Some(TS));
}

#[test]
fn sms_date_from_received_when_timestamp_bad() {
    let s = sms("x", Some("not a date"), None, Some("2024-08-17T15:27:02Z"));
    assert_eq!(sms_date(&s), Some(TS));
}

#[test]
fn sms_date_from_router_time() {
    let s = sms("x", None, Some("aug/17/2024 15:27:02"), None);
    assert_eq!(sms_date(&s), Some(TS));
}

#[test]
fn sms_date_router_time_month_case_normalised() {
    let s = sms("x", None, Some("Aug/17/2024 15:27:02"), None);
    assert_eq!(sms_date(&s), Some(TS));
}

#[test]
fn sms_date_none_when_nothing_parses() {
    let s = sms("x", Some("garbage"), Some("garbage"), Some("garbage"));
    assert_eq!(sms_date(&s), None);
    let s2 = sms("x", None, None, None);
    assert_eq!(sms_date(&s2), None);
}

#[test]
fn router_time_rejects_bad_shapes() {
    assert_eq!(parse_router_time("xyz/17/2024 15:27:02"), None);
    assert_eq!(parse_router_time("aug-17-2024 15:27:02"), None);
    assert_eq!(parse_router_time("aug/99/2024 15:27:02"), None); // no such day
    assert_eq!(parse_router_time("aug/17/2024 25:27:02"), None); // no such hour
    assert_eq!(parse_router_time("aug/17/24 15:27:02"), None);
}

#[test]
fn parse_from_sms_needs_both_parts() {
    let body = "Dati: hai ancora a disposizione il 73% di 100,0 GIGA di traffico";
    let good = sms(body, Some("2024-08-17T15:27:02Z"), None, None);
    let ds = parse_data_status_from_sms(&good).expect("must parse");
    assert_eq!(ds.date_time, TS);
    assert_eq!(ds.remaining_data_mb, 74_752);

    let no_date = sms(body, None, None, None);
    assert!(parse_data_status_from_sms(&no_date).is_none());

    let no_balance = sms("ciao", Some("2024-08-17T15:27:02Z"), None, None);
    assert!(parse_data_status_from_sms(&no_balance).is_none());
}
