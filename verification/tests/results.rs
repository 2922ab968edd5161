use hermes::db::scan_rows;
use hermes::results::{
    invalid_ndjson_message, ndjson_lines, ndjson_report, no_open_ports_message, port_status_records, read_ndjson_line,
    record_lines, status_row, Json, PortStatusRecord,
};

fn s(text: &str) -> Json {
    Json::Str(text.to_string())
}

fn object(members: Vec<(&str, Json)>) -> Json {
    Json::Object(members.into_iter().map(|(k, v)| (k.to_string(), v)).collect())
}

fn open_port_record() -> Json {
    object(vec![
        ("ip", s("10.0.0.1")),
        ("timestamp", s("1700000000")),
        (
            "port",
            Json::Array(vec![
                object(vec![
                    ("port", Json::Number(Some(443))),
                    ("proto", s("tcp")),
                    ("status", s("open")),
                    ("reason", s("syn-ack")),
                    ("ttl", Json::Number(Some(64))),
                ]),
                object(vec![("port", Json::Number(None))]),
            ]),
        ),
    ])
}

#[test]
fn port_list_records_give_one_row_per_entry() {
    let rows = record_lines(&open_port_record());
    assert_eq!(
        rows,
        vec![
            "       10.0.0.1  tcp     443  status=open    reason=syn-ack".to_string(),
            "       10.0.0.1  ?         ?  status=unknown reason=n/a".to_string(),
        ]
    );
}

#[test]
fn status_records_read_data() {
    let record = object(vec![
        ("rec_type", s("status")),
        ("ip", s("192.168.100.200")),
        ("proto", s("udp")),
        ("port", Json::Number(Some(53))),
        ("data", object(vec![("status", s("closed")), ("reason", s("icmp"))])),
    ]);
    assert_eq!(
        record_lines(&record),
        vec!["192.168.100.200  udp      53  status=closed  reason=icmp".to_string()]
    );
}

#[test]
fn other_records_give_no_rows() {
    assert!(record_lines(&object(vec![("rec_type", s("banner"))])).is_empty());
    assert!(record_lines(&Json::Null).is_empty());
    assert!(record_lines(&Json::Array(vec![Json::Bool(true)])).is_empty());
}

#[test]
fn missing_address_has_a_stand_in() {
    let record = object(vec![
        ("rec_type", s("status")),
        ("port", Json::Number(Some(80))),
    ]);
    assert_eq!(
        record_lines(&record),
        vec!["   <unknown-ip>  ?        80  status=unknown reason=n/a".to_string()]
    );
}

#[test]
fn ndjson_lines_are_numbered_trimmed_and_skip_blanks() {
    let lines = ndjson_lines("{\"a\":1}\r\n\n  {\"b\":2}  \n\n");
    let found: Vec<(usize, &str)> = lines.iter().map(|l| (l.number, l.text.as_str())).collect();
    assert_eq!(found, vec![(1, "{\"a\":1}"), (3, "{\"b\":2}")]);
    assert!(ndjson_lines("").is_empty());
}

#[test]
fn ndjson_messages() {
    assert_eq!(
        invalid_ndjson_message(12, "expected value"),
        "invalid ndjson at line 12: expected value"
    );
    assert_eq!(no_open_ports_message(), "No open ports found for requested targets");
}

#[test]
fn port_status_records_follow_the_rows() {
    let records = port_status_records(&open_port_record());
    assert_eq!(records.len(), 1);
    assert_eq!(records[0].ip, "10.0.0.1");
    assert_eq!(records[0].proto, "tcp");
    assert_eq!(records[0].port, 443);
    assert_eq!(records[0].status, "open");
    assert_eq!(records[0].reason, "syn-ack");
    assert_eq!(status_row(&records[0]), record_lines(&open_port_record())[0]);
}

#[test]
fn scan_rows_copy_records_and_stamp_time() {
    let records = vec![PortStatusRecord {
        ip: "10.0.0.1".to_string(),
        proto: "tcp".to_string(),
        port: 22,
        status: "open".to_string(),
        reason: "syn-ack".to_string(),
    }];
    let rows = scan_rows(&records, 1_700_000_000);
    assert_eq!(rows.len(), 1);
    assert_eq!(rows[0].scanned_at_epoch_s, 1_700_000_000);
    assert_eq!(rows[0].ip, "10.0.0.1");
    assert_eq!(rows[0].proto, "tcp");
    assert_eq!(rows[0].port, 22);
    assert_eq!(rows[0].status, "open");
    assert_eq!(rows[0].reason, "syn-ack");
    assert!(scan_rows(&[], 5).is_empty());
}

#[test]
fn ndjson_report_shows_rows_in_order() {
    let content = "{\"ip\":\"10.0.0.1\",\"port\":[{\"port\":22,\"proto\":\"tcp\",\"status\":\"open\",\"reason\":\"syn-ack\"}]}\n\n{\"rec_type\":\"status\",\"ip\":\"10.0.0.2\",\"proto\":\"udp\",\"port\":53,\"data\":{\"status\":\"open\",\"reason\":\"udp-response\"}}\n";
    let (lines, failure) = ndjson_report(content);
    assert!(failure.is_none());
    assert_eq!(
        lines,
        vec![
            "       10.0.0.1  tcp      22  status=open    reason=syn-ack".to_string(),
            "       10.0.0.2  udp      53  status=open    reason=udp-response".to_string(),
        ]
    );
}

#[test]
fn ndjson_report_without_rows_says_so() {
    let (lines, failure) = ndjson_report("\n{\"rec_type\":\"banner\"}\n");
    assert!(failure.is_none());
    assert_eq!(lines, vec!["No open ports found for requested targets".to_string()]);
    let (lines, failure) = ndjson_report("");
    assert!(failure.is_none());
    assert_eq!(lines, vec!["No open ports found for requested targets".to_string()]);
}

#[test]
fn ndjson_report_stops_at_the_first_bad_line() {
    let content = "{\"ip\":\"10.0.0.1\",\"port\":[{\"port\":80}]}\n{oops\n{\"ip\":\"10.0.0.2\",\"port\":[{\"port\":81}]}\n";
    let (lines, failure) = ndjson_report(content);
    assert_eq!(lines, vec!["       10.0.0.1  ?        80  status=unknown reason=n/a".to_string()]);
    let failure = failure.unwrap();
    assert!(failure.starts_with("invalid ndjson at line 2: "), "{failure}");
    let (lines, failure) = ndjson_report("nope");
    assert!(lines.is_empty());
    assert!(failure.unwrap().starts_with("invalid ndjson at line 1: "));
}

#[test]
fn read_ndjson_line_converts_values() {
    let lines = ndjson_lines("  {\"a\":[1,-2,2.5,null,true,\"x\"],\"a\":{}}  ");
    match read_ndjson_line(&lines[0]).unwrap() {
        Json::Object(members) => {
            assert_eq!(members.len(), 1);
            assert_eq!(members[0].0, "a");
            assert!(matches!(members[0].1, Json::Object(ref inner) if inner.is_empty()));
        }
        other => panic!("unexpected {other:?}"),
    }
    let lines = ndjson_lines("[1,-2,2.5,null,true,\"x\"]");
    match read_ndjson_line(&lines[0]).unwrap() {
        Json::Array(items) => {
            assert!(matches!(items[0], Json::Number(Some(1))));
            assert!(matches!(items[1], Json::Number(None)));
            assert!(matches!(items[2], Json::Number(None)));
            assert!(matches!(items[3], Json::Null));
            assert!(matches!(items[4], Json::Bool(true)));
            assert!(matches!(items[5], Json::Str(ref s) if s == "x"));
        }
        other => panic!("unexpected {other:?}"),
    }
}

#[test]
fn persist_without_records_opens_nothing() {
    let mut opened = false;
    let result = hermes::db::persist_scan_results(
        "scan.sqlite3",
        &[],
        |_path: &str| -> Result<((), i64), String> {
            opened = true;
            Ok(((), 0))
        },
        |_c: (), _rows: &Vec<hermes::db::ScanRow>| Ok(7),
    );
    assert_eq!(result, Ok(0));
    assert!(!opened);
}

#[test]
fn persist_stamps_rows_and_reports_errors() {
    let records = vec![PortStatusRecord {
        ip: "10.0.0.1".to_string(),
        proto: "tcp".to_string(),
        port: 22,
        status: "open".to_string(),
        reason: "syn-ack".to_string(),
    }];
    let result = hermes::db::persist_scan_results(
        "scan.sqlite3",
        &records,
        |path: &str| -> Result<(String, i64), String> { Ok((path.to_string(), 42)) },
        |connection: String, rows: &Vec<hermes::db::ScanRow>| {
            assert_eq!(connection, "scan.sqlite3");
            assert_eq!(rows.len(), 1);
            assert_eq!(rows[0].scanned_at_epoch_s, 42);
            assert_eq!(rows[0].ip, "10.0.0.1");
            Ok(rows.len())
        },
    );
    assert_eq!(result, Ok(1));
    let failed = hermes::db::persist_scan_results(
        "scan.sqlite3",
        &records,
        |_path: &str| -> Result<((), i64), String> { Err("cannot open".to_string()) },
        |_c: (), _rows: &Vec<hermes::db::ScanRow>| Ok(1),
    );
    assert_eq!(failed, Err("cannot open".to_string()));
}
