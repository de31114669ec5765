use chrono::DateTime;
use log_collectors::cli::get_url;
use log_collectors::cli::post_url;
use log_collectors::cli::LogFormat;
use log_collectors::codec::decimal_text;
use log_collectors::codec::decode_csv;
use log_collectors::codec::decode_csv_each;
use log_collectors::codec::decode_row;
use log_collectors::codec::encode_csv;
use log_collectors::codec::parse_response_time;
use log_collectors::ingest::is_csv_part;
use log_collectors::instant::format_display;
use log_collectors::instant::format_rfc3339;
use log_collectors::instant::MAX_SECS;
use log_collectors::instant::MIN_SECS;
use log_collectors::instant::parse_rfc3339;
use log_collectors::instant::Timestamp;
use log_collectors::records::CsvResponse;
use log_collectors::records::DateTimeRange;
use log_collectors::records::LogResponse;
use log_collectors::records::NewLog;

fn ts(s: &str) -> Timestamp {
    parse_rfc3339(s).unwrap()
}

#[test]
fn response_time_parsing() {
    assert_eq!(parse_response_time("100"), Some(100));
    assert_eq!(parse_response_time("+7"), Some(7));
    assert_eq!(parse_response_time("0007"), Some(7));
    assert_eq!(parse_response_time("0"), Some(0));
    assert_eq!(parse_response_time("2147483647"), Some(2147483647));
    assert_eq!(parse_response_time("2147483648"), None);
    assert_eq!(parse_response_time("99999999999999999999"), None);
    assert_eq!(parse_response_time(""), None);
    assert_eq!(parse_response_time("+"), None);
    assert_eq!(parse_response_time("-5"), None);
    assert_eq!(parse_response_time(" 100"), None);
    assert_eq!(parse_response_time("1a"), None);
}

#[test]
fn decimal_writing() {
    assert_eq!(decimal_text(0), "0");
    assert_eq!(decimal_text(7), "7");
    assert_eq!(decimal_text(1234567), "1234567");
    assert_eq!(decimal_text(u32::MAX), "4294967295");
}

#[test]
fn rfc3339_parsing() {
    let t = ts("2023-01-02T03:04:07Z");
    assert_eq!(t, Timestamp { secs: 1672628647, nanos: 0 });
    let t = ts("2023-01-02T03:04:07.682066134Z");
    assert_eq!(t, Timestamp { secs: 1672628647, nanos: 682066134 });
    let t = ts("2023-01-02 03:04:07.5 UTC");
    assert_eq!(t, Timestamp { secs: 1672628647, nanos: 500000000 });
    let t = ts("2023-01-02T05:04:07+02:00");
    assert_eq!(t, Timestamp { secs: 1672628647, nanos: 0 });
    assert_eq!(parse_rfc3339("yesterday"), None);
    assert_eq!(parse_rfc3339(""), None);
}

#[test]
fn instant_formatting() {
    let t = Timestamp { secs: 1672628647, nanos: 0 };
    assert_eq!(format_rfc3339(t), "2023-01-02T03:04:07Z");
    assert_eq!(format_display(t), "2023-01-02 03:04:07 UTC");
    let t = Timestamp { secs: 1672628647, nanos: 500000000 };
    assert_eq!(format_rfc3339(t), "2023-01-02T03:04:07.500Z");
}

#[test]
fn sub_second_truncation() {
    let t = ts("2023-01-02T03:04:07.999999999Z");
    let whole = t.trunc_subsecs();
    assert_eq!(whole, ts("2023-01-02T03:04:07Z"));
    assert!(whole.le(&t));
    assert!(!t.le(&whole));
    assert_eq!(whole.trunc_subsecs(), whole);
}

#[test]
fn timestamp_range_of_chrono() {
    assert_eq!(Timestamp::new(0, 0), Some(Timestamp { secs: 0, nanos: 0 }));
    assert_eq!(Timestamp::new(0, 2_000_000_000), None);
    assert_eq!(Timestamp::new(59, 1_500_000_000), Some(Timestamp { secs: 59, nanos: 1_500_000_000 }));
    assert_eq!(Timestamp::new(58, 1_500_000_000), None);
    assert_eq!(Timestamp::new(-1, 1_000_000_000), Some(Timestamp { secs: -1, nanos: 1_000_000_000 }));
    assert_eq!(Timestamp::new(i64::MAX, 0), None);
    assert_eq!(Timestamp::new(i64::MIN, 0), None);
}

#[test]
fn row_decoding() {
    let fields = vec!["agent a".to_string(), "100".to_string(), "2023-01-02T03:04:07Z".to_string()];
    assert_eq!(
        decode_row(&fields),
        Some(NewLog {
            user_agent: "agent a".to_string(),
            response_time: 100,
            timestamp: Some(ts("2023-01-02T03:04:07Z")),
        })
    );
    let fields = vec!["agent a".to_string(), "100".to_string(), String::new()];
    assert_eq!(decode_row(&fields).unwrap().timestamp, None);
    let fields = vec!["agent a".to_string(), "100".to_string()];
    assert_eq!(decode_row(&fields), None);
    let fields = vec!["agent a".to_string(), "-1".to_string(), String::new()];
    assert_eq!(decode_row(&fields), None);
    let fields = vec!["agent a".to_string(), "1".to_string(), "noon".to_string()];
    assert_eq!(decode_row(&fields), None);
    let fields = vec!["a".to_string(), "1".to_string(), String::new(), "extra".to_string()];
    assert_eq!(decode_row(&fields).unwrap().user_agent, "a");
}

#[test]
fn csv_decoding_skips_malformed_rows() {
    let data = b"\"agent a\",100,2023-01-02T03:04:07Z\nagent x,abc,\n\"agent, b\",200,\n";
    let rows = decode_csv(data);
    assert_eq!(rows.len(), 2);
    assert_eq!(rows[0].user_agent, "agent a");
    assert_eq!(rows[0].response_time, 100);
    assert_eq!(rows[0].timestamp, Some(ts("2023-01-02T03:04:07Z")));
    assert_eq!(rows[1].user_agent, "agent, b");
    assert_eq!(rows[1].response_time, 200);
    assert_eq!(rows[1].timestamp, None);
}

#[test]
fn csv_decoding_of_nothing() {
    assert!(decode_csv(b"").is_empty());
}

#[test]
fn csv_decoding_keeps_whitespace() {
    let rows = decode_csv(b"\"agent a\", 100, 2023-01-02T03:04:07Z\n");
    assert!(rows.is_empty());
    let rows = decode_csv(b" agent a ,100,\n");
    assert_eq!(rows[0].user_agent, " agent a ");
}

#[test]
fn csv_encoding() {
    let logs = vec![
        LogResponse {
            user_agent: "agent a".to_string(),
            response_time: 100,
            timestamp: ts("2023-01-02T03:04:07Z"),
        },
        LogResponse {
            user_agent: "say \"hi\", b".to_string(),
            response_time: 7,
            timestamp: ts("2023-02-03T04:05:09Z"),
        },
    ];
    assert_eq!(
        encode_csv(&logs),
        "agent a,100,2023-01-02T03:04:07Z\n\"say \"\"hi\"\", b\",7,2023-02-03T04:05:09Z\n"
    );
    assert_eq!(encode_csv(&Vec::new()), "");
}

#[test]
fn range_text() {
    let t = ts("2023-01-02T03:04:07Z");
    let u = ts("2023-02-03T04:05:09Z");
    let both = DateTimeRange { from: Some(t), until: Some(u) };
    assert_eq!(both.to_string(), "2023-01-02 03:04:07 UTC..2023-02-03 04:05:09 UTC");
    let from = DateTimeRange { from: Some(t), until: None };
    assert_eq!(from.to_string(), "2023-01-02 03:04:07 UTC..");
    let until = DateTimeRange { from: None, until: Some(u) };
    assert_eq!(until.to_string(), "..2023-02-03 04:05:09 UTC");
    let none = DateTimeRange { from: None, until: None };
    assert_eq!(none.to_string(), "..");
}

#[test]
fn range_membership() {
    let t = ts("2023-01-02T03:04:07Z");
    let u = ts("2023-02-03T04:05:09Z");
    let r = DateTimeRange { from: Some(t), until: Some(u) };
    assert!(r.contains(&t));
    assert!(r.contains(&u));
    assert!(!r.contains(&ts("2023-02-03T04:05:10Z")));
    assert!(!r.contains(&ts("2023-01-02T03:04:06Z")));
    let inverted = DateTimeRange { from: Some(u), until: Some(t) };
    assert!(!inverted.contains(&t));
    assert!(!inverted.contains(&u));
    let open = DateTimeRange { from: None, until: None };
    assert!(open.contains(&t));
}

#[test]
fn only_csv_parts_are_loaded() {
    assert!(is_csv_part(Some("text/csv")));
    assert!(!is_csv_part(Some("application/json")));
    assert!(!is_csv_part(Some("text/csv; charset=utf-8")));
    assert!(!is_csv_part(Some("text/plain")));
    assert!(!is_csv_part(None));
}

#[test]
fn upload_count() {
    let c = CsvResponse::default();
    let c = c.add(2).unwrap();
    assert_eq!(c, CsvResponse(2));
    assert_eq!(c.add(3), Some(CsvResponse(5)));
    assert_eq!(CsvResponse(u64::MAX).add(1), None);
    assert_eq!(CsvResponse(u64::MAX).add(0), Some(CsvResponse(u64::MAX)));
}

#[test]
fn client_urls() {
    assert_eq!(get_url("http://localhost:3000", LogFormat::Json), "http://localhost:3000/logs");
    assert_eq!(get_url("http://localhost:3000", LogFormat::Csv), "http://localhost:3000/csv");
    assert_eq!(post_url("http://h"), "http://h/logs");
}

#[test]
fn timestamp_bounds_match_chrono() {
    assert!(DateTime::from_timestamp(MIN_SECS, 0).is_some());
    assert!(DateTime::from_timestamp(MAX_SECS, 999_999_999).is_some());
    assert!(DateTime::from_timestamp(MIN_SECS - 1, 0).is_none());
    assert!(DateTime::from_timestamp(MAX_SECS + 1, 0).is_none());
    assert_eq!(DateTime::<chrono::Utc>::MIN_UTC.timestamp(), MIN_SECS);
    assert_eq!(DateTime::<chrono::Utc>::MAX_UTC.timestamp(), MAX_SECS);
    let low = Timestamp::new(MIN_SECS, 0).unwrap();
    let high = Timestamp::new(MAX_SECS, 999_999_999).unwrap();
    assert!(!format_rfc3339(low).is_empty());
    assert!(!format_rfc3339(high).is_empty());
    assert!(!format_display(low).is_empty());
    assert!(!format_display(high).is_empty());
    assert_eq!(Timestamp::new(MAX_SECS + 1, 0), None);
    assert_eq!(Timestamp::new(MIN_SECS - 1, 0), None);
}

#[test]
fn csv_decoding_record_by_record() {
    let data = b"a,1,\nb,oops,\nc,3,2023-01-02T03:04:07Z\n";
    let each = decode_csv_each(data);
    assert_eq!(each.len(), 3);
    assert_eq!(each[0].as_ref().unwrap().user_agent, "a");
    assert!(each[1].is_none());
    assert_eq!(each[2].as_ref().unwrap().timestamp, Some(ts("2023-01-02T03:04:07Z")));
    assert!(decode_csv_each(b"").is_empty());
}
