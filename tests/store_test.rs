use log_collectors::codec::decode_csv;
use log_collectors::codec::encode_csv;
use log_collectors::instant::now;
use log_collectors::instant::parse_rfc3339;
use log_collectors::instant::Timestamp;
use log_collectors::records::AppError;
use log_collectors::records::Log;
use log_collectors::records::LogResponse;
use log_collectors::store::new_id;
use log_collectors::store::MemDb;

fn ts(s: &str) -> Timestamp {
    parse_rfc3339(s).unwrap()
}

fn responses(logs: &[Log]) -> Vec<LogResponse> {
    logs.iter().map(|l| l.to_response()).collect()
}

#[test]
fn create_logs() {
    let mut db = MemDb::new();
    let log = db.insert_log("Agent 1", 100, None).unwrap();
    assert_eq!(log.user_agent, "Agent 1");
    assert_eq!(log.response_time, 100);
    assert_eq!(log.timestamp.nanos % 1_000_000_000, 0);
    assert_eq!(db.len(), 1);
    assert_eq!(db.get_logs(None, None), vec![log]);
}

#[test]
fn get_logs() {
    let stamp = now().trunc_subsecs();
    let log1 = Log { id: 1, user_agent: "agent 1".into(), response_time: 100, timestamp: stamp };
    let log2 = Log { id: 2, user_agent: "agent 2".into(), response_time: 200, timestamp: stamp };
    let db = MemDb::from_logs(vec![log1.clone(), log2.clone()]).unwrap();
    let res = responses(&db.get_logs(None, None));
    assert_eq!(res, vec![log1.to_response(), log2.to_response()]);
}

#[test]
fn post_csv() {
    let mut db = MemDb::new();
    let data = b"\"agent a\",100,2023-01-02T03:04:07Z\n\"agent b\",200,2023-02-03T04:05:09Z\n";
    assert_eq!(db.load_csv(data), Ok(2));
    let body = encode_csv(&responses(&db.get_logs(None, None)));
    assert_eq!(body, "agent a,100,2023-01-02T03:04:07Z\nagent b,200,2023-02-03T04:05:09Z\n");
}

#[test]
fn ping_get_logs() {
    let db = MemDb::new();
    assert!(db.get_logs(None, None).is_empty());
}

#[test]
fn ping_post_logs() {
    let mut db = MemDb::new();
    assert!(db.insert_log("Agent 1", 100, None).is_ok());
}

#[test]
fn ping_get_csv() {
    let db = MemDb::new();
    assert_eq!(encode_csv(&responses(&db.get_logs(None, None))), "");
}

#[test]
fn ping_post_csv() {
    let mut db = MemDb::new();
    assert_eq!(db.load_csv(b""), Ok(0));
    assert_eq!(db.len(), 0);
}

#[test]
fn point_query_after_insert() {
    let mut db = MemDb::new();
    let t = ts("2023-01-02T03:04:07Z");
    db.insert_log("other", 1, Some(ts("2023-01-02T03:04:08Z"))).unwrap();
    let log = db.insert_log("agent", 42, Some(t)).unwrap();
    let found = db.get_logs(Some(t), Some(t));
    assert_eq!(found, vec![log]);
    assert_eq!(found[0].user_agent, "agent");
    assert_eq!(found[0].response_time, 42);
    assert_eq!(found[0].timestamp, t);
}

#[test]
fn sub_second_timestamp_is_truncated() {
    let mut db = MemDb::new();
    let t = ts("2023-01-02T03:04:07.682066134Z");
    let log = db.insert_log("agent", 1, Some(t)).unwrap();
    assert_eq!(log.timestamp, ts("2023-01-02T03:04:07Z"));
    assert!(log.timestamp.le(&t));
    assert!(db.get_logs(Some(t), Some(t)).is_empty());
}

#[test]
fn missing_timestamp_gets_whole_seconds() {
    let mut db = MemDb::new();
    let before = now().trunc_subsecs();
    let log = db.insert_log("agent", 1, None).unwrap();
    assert_eq!(log.timestamp.nanos % 1_000_000_000, 0);
    assert!(before.le(&log.timestamp));
}

#[test]
fn range_query_is_exact() {
    let mut db = MemDb::new();
    let stamps = [
        "2023-01-01T00:00:00Z",
        "2023-01-02T00:00:00Z",
        "2023-01-03T00:00:00Z",
        "2023-01-04T00:00:00Z",
    ];
    for (i, s) in stamps.iter().enumerate() {
        db.insert_log(&format!("agent {i}"), i as i32, Some(ts(s))).unwrap();
    }
    let found = db.get_logs(Some(ts(stamps[1])), Some(ts(stamps[2])));
    let agents: Vec<&str> = found.iter().map(|l| l.user_agent.as_str()).collect();
    assert_eq!(agents, vec!["agent 1", "agent 2"]);
    assert_eq!(db.get_logs(Some(ts(stamps[3])), None).len(), 1);
    assert_eq!(db.get_logs(None, Some(ts(stamps[0]))).len(), 1);
    assert_eq!(db.get_logs(None, None).len(), 4);
}

#[test]
fn inverted_range_is_empty() {
    let mut db = MemDb::new();
    db.insert_log("a", 1, Some(ts("2023-01-02T00:00:00Z"))).unwrap();
    let found = db.get_logs(Some(ts("2023-01-03T00:00:00Z")), Some(ts("2023-01-01T00:00:00Z")));
    assert!(found.is_empty());
}

#[test]
fn mixed_upload_stores_well_formed_rows() {
    let mut db = MemDb::new();
    let data = b"\"agent a\",100,2023-01-02T03:04:07Z\n\"agent b\",oops,2023-02-03T04:05:09Z\n";
    assert_eq!(db.load_csv(data), Ok(1));
    let all = db.get_logs(None, None);
    assert_eq!(all.len(), 1);
    assert_eq!(all[0].user_agent, "agent a");
}

#[test]
fn upload_row_without_timestamp() {
    let mut db = MemDb::new();
    assert_eq!(db.load_csv(b"agent,5,\n"), Ok(1));
    let all = db.get_logs(None, None);
    assert_eq!(all[0].timestamp.nanos % 1_000_000_000, 0);
    assert_eq!(all[0].response_time, 5);
}

#[test]
fn upload_sub_second_timestamp_is_truncated() {
    let mut db = MemDb::new();
    assert_eq!(db.load_csv(b"agent,5,2023-01-02T03:04:07.9Z\n"), Ok(1));
    assert_eq!(db.get_logs(None, None)[0].timestamp, ts("2023-01-02T03:04:07Z"));
}

#[test]
fn csv_round_trip() {
    let mut db = MemDb::new();
    let mut data = String::new();
    for i in 0..25 {
        data.push_str(&format!("\"agent, {i}\",{},2023-01-02T03:04:{:02}Z\n", i * 10, i));
    }
    assert_eq!(db.load_csv(data.as_bytes()), Ok(25));
    let body = encode_csv(&responses(&db.get_logs(None, None)));
    let back = decode_csv(body.as_bytes());
    let mut written = decode_csv(data.as_bytes());
    let mut read = back;
    written.sort_by(|a, b| a.user_agent.cmp(&b.user_agent));
    read.sort_by(|a, b| a.user_agent.cmp(&b.user_agent));
    assert_eq!(written, read);
}

#[test]
fn duplicate_ids_are_refused() {
    let stamp = ts("2023-01-02T03:04:07Z");
    let log1 = Log { id: 9, user_agent: "a".into(), response_time: 1, timestamp: stamp };
    let log2 = Log { id: 9, user_agent: "b".into(), response_time: 2, timestamp: stamp };
    assert!(MemDb::from_logs(vec![log1.clone(), log2]).is_none());
    let mut db = MemDb::from_logs(vec![log1]).unwrap();
    assert_eq!(db.insert_log_with("c", 3, None, 9, stamp), Err(AppError));
    assert_eq!(db.len(), 1);
    let log = db.insert_log_with("c", 3, None, 10, stamp).unwrap();
    assert_eq!(log.id, 10);
    assert_eq!(log.timestamp, stamp);
}

#[test]
fn preload_refuses_broken_records() {
    let stamp = ts("2023-01-02T03:04:07Z");
    let negative = Log { id: 1, user_agent: "a".into(), response_time: -1, timestamp: stamp };
    assert!(MemDb::from_logs(vec![negative]).is_none());
    let fraction = Log { id: 1, user_agent: "a".into(), response_time: 1, timestamp: Timestamp { secs: 5, nanos: 3 } };
    assert!(MemDb::from_logs(vec![fraction]).is_none());
}

#[test]
fn fresh_ids_differ() {
    assert_ne!(new_id(), new_id());
}
