use lognorm::auth::{
    complete_auth_log, extract_general_fields, parse_auth_log, parse_connection, validate_shape,
};
use lognorm::record::{FieldValue, LogParsingError, LogRecord};

const QUERY_LINE: &str = "2021-04-08T12:14:18.123456Z        12 Query SELECT 1 FROM dual";

fn record(line: &str) -> LogRecord {
    LogRecord::new(line.to_string(), 5)
}

fn rejected(line: &str) {
    match parse_auth_log(record(line)) {
        Err(LogParsingError::NoValidParser(back)) => {
            assert_eq!(back.message, line);
            assert_eq!(back.event_created, 5);
            assert_eq!(back.event_received, 5);
            assert_eq!(back.fields.entries().len(), 0);
            assert_eq!(back.service, "");
            assert_eq!(back.event, None);
        }
        _ => panic!("expected no valid parser for {:?}", line),
    }
}

#[test]
fn query_line_is_parsed() {
    assert_eq!(QUERY_LINE.find(" Query "), Some(37));
    let log = parse_auth_log(record(QUERY_LINE)).expect("must be parsed");
    assert_eq!(log.event_created, 1617884058123);
    assert_eq!(log.event_received, 5);
    assert_eq!(log.field("session.id"), Some(&FieldValue::U32(12)));
    assert_eq!(log.field("session.name"), None);
    assert_eq!(log.field("event.dataset"), Some(&FieldValue::Text("Query".to_string())));
    assert_eq!(
        log.field("database.query"),
        Some(&FieldValue::Text("SELECT 1 FROM dual".to_string()))
    );
    assert_eq!(log.service, "MySQL");
    assert_eq!(log.product, "MySQL");
    assert_eq!(log.category, "Database");
    assert_eq!(log.event, None);
    assert_eq!(log.message, QUERY_LINE);
}

#[test]
fn header_before_the_prefix_is_cut_off() {
    let line = format!("<13>Apr  8 12:14:18 db01 mysqld: {}", QUERY_LINE);
    let log = parse_auth_log(record(&line)).expect("must be parsed");
    assert_eq!(log.event_created, 1617884058123);
    assert_eq!(log.field("session.id"), Some(&FieldValue::U32(12)));
    assert_eq!(
        log.field("database.query"),
        Some(&FieldValue::Text("SELECT 1 FROM dual".to_string()))
    );
    assert_eq!(log.message, line);
    let one_more = format!("x{}", QUERY_LINE);
    let log = parse_auth_log(record(&one_more)).expect("must be parsed");
    assert_eq!(log.field("session.id"), Some(&FieldValue::U32(12)));
}

#[test]
fn quit_line_of_minimum_length_is_parsed() {
    let line = "2021-04-08T12:14:18.123456Z        12 Quit";
    assert_eq!(line.len(), 42);
    let log = parse_auth_log(record(line)).expect("must be parsed");
    assert_eq!(log.field("event.dataset"), Some(&FieldValue::Text("Quit".to_string())));
    assert_eq!(log.field("session.id"), Some(&FieldValue::U32(12)));
    assert_eq!(log.field("database.query"), None);
    assert_eq!(log.fields.entries().len(), 2);
    assert_eq!(log.category, "Database");
}

#[test]
fn session_that_is_no_number_is_kept_as_name() {
    let line = "2021-04-08T12:14:18.123456Z   worker7 Query SELECT 1";
    let log = parse_auth_log(record(line)).expect("must be parsed");
    assert_eq!(log.field("session.id"), None);
    assert_eq!(log.field("session.name"), Some(&FieldValue::Text("worker7".to_string())));
}

#[test]
fn connect_line_gets_user_and_host() {
    let line = "2021-04-08T12:14:18.123456Z        12 Connect root@localhost on shop using Socket";
    let log = parse_auth_log(record(line)).expect("must be parsed");
    assert_eq!(log.field("event.dataset"), Some(&FieldValue::Text("Connect".to_string())));
    assert_eq!(log.field("user.name"), Some(&FieldValue::Text("root".to_string())));
    assert_eq!(log.field("source.address"), Some(&FieldValue::Text("localhost".to_string())));
    assert_eq!(log.field("session.id"), Some(&FieldValue::U32(12)));
}

#[test]
fn connect_line_with_malformed_content_is_still_parsed() {
    let line = "2021-04-08T12:14:18.123456Z        12 Connect Access denied for user 'root'@'localhost' (using password: YES)";
    let log = parse_auth_log(record(line)).expect("must be parsed");
    assert_eq!(log.event_created, 1617884058123);
    assert_eq!(log.field("session.id"), Some(&FieldValue::U32(12)));
    assert_eq!(log.field("event.dataset"), Some(&FieldValue::Text("Connect".to_string())));
    assert_eq!(log.field("user.name"), None);
    assert_eq!(log.field("source.address"), None);
    assert_eq!(log.fields.entries().len(), 2);
    assert_eq!(log.service, "MySQL");
    assert_eq!(log.product, "MySQL");
    assert_eq!(log.category, "Database");
}

#[test]
fn line_without_marker_has_no_valid_parser() {
    rejected("2021-04-08T12:14:18.123456Z        12 Select SELECT 1 FROM dual");
    rejected("");
    rejected("id=firewall time=\"2021-04-08 11:57:48\" fw=10.0.0.9");
}

#[test]
fn short_lines_have_no_valid_parser() {
    rejected(" Quit");
    rejected("2021-04-08T12:14:18.123456Z       12 Quit");
    rejected("2021-04-08T12:14:18Z 12 Query SELECT 1");
    for n in 0..37 {
        let line = format!("{} Quit", "1".repeat(n));
        assert!(line.len() < 42);
        rejected(&line);
    }
}

#[test]
fn lines_of_another_shape_have_no_valid_parser() {
    rejected("x021-04-08T12:14:18.123456Z        12 Query SELECT 1 FROM dual");
    rejected("2021-04-08T12:14:18.123456Zx       12 Query SELECT 1 FROM dual");
    rejected("2021-04-08T12:14:18.123456Z        12xQuery  Query SELECT 1");
    rejected("1                                     Quit");
    rejected("2021-04-08 12:14:18.123456Z        12 Query SELECT 1 FROM dual");
    rejected("2021-04-08T12:14:18.12345!Z        12 Query SELECT 1 FROM dual");
}

#[test]
fn first_marker_of_the_list_decides() {
    let line = "2021-04-08T12:14:18.123456Z        12 Connect a@b on  Query x";
    rejected(line);
    let line = "2021-04-08T12:14:18.123456Z        12 Query  Connect  Quit";
    let log = parse_auth_log(record(line)).expect("must be parsed");
    assert_eq!(log.field("event.dataset"), Some(&FieldValue::Text("Query".to_string())));
    assert_eq!(
        log.field("database.query"),
        Some(&FieldValue::Text(" Connect  Quit".to_string()))
    );
}

#[test]
fn validate_shape_returns_the_candidate() {
    assert_eq!(validate_shape(QUERY_LINE), Some(QUERY_LINE.to_string()));
    let with_header = format!("héader: {}", QUERY_LINE);
    assert_eq!(validate_shape(&with_header), Some(QUERY_LINE.to_string()));
    assert_eq!(validate_shape("no marker"), None);
    assert_eq!(validate_shape(" Quit"), None);
}

#[test]
fn extract_general_fields_splits_at_spaces() {
    assert_eq!(
        extract_general_fields(QUERY_LINE),
        vec!["2021-04-08T12:14:18.123456Z", "12", "Query", "SELECT 1 FROM dual"]
    );
    assert_eq!(extract_general_fields("a b c"), vec!["a", "b", "c", ""]);
    assert_eq!(extract_general_fields("  a   b  c   d  e "), vec!["a", "b", "c", "  d  e "]);
    assert_eq!(extract_general_fields("a b c "), vec!["a", "b", "c", ""]);
    assert_eq!(extract_general_fields("a b c d"), vec!["a", "b", "c", "d"]);
    assert_eq!(extract_general_fields("a b"), vec!["a", "b"]);
    assert_eq!(extract_general_fields("a"), vec!["a"]);
    assert_eq!(extract_general_fields(""), Vec::<String>::new());
    assert_eq!(extract_general_fields("   "), Vec::<String>::new());
}

#[test]
fn parse_connection_reads_user_and_host() {
    let log = parse_connection(record("line"), "app@10.0.0.7 on  using TCP/IP")
        .expect("must be parsed");
    assert_eq!(log.field("user.name"), Some(&FieldValue::Text("app".to_string())));
    assert_eq!(log.field("source.address"), Some(&FieldValue::Text("10.0.0.7".to_string())));
    assert_eq!(log.fields.entries().len(), 2);
    for content in ["", "root", "root@localhost", "root on db", " on x@y"] {
        match parse_connection(record("line"), content) {
            Err(back) => {
                assert_eq!(back.fields.entries().len(), 0);
                assert_eq!(back.message, "line");
            }
            Ok(_) => panic!("expected a failure for {:?}", content),
        }
    }
}

#[test]
fn complete_auth_log_fills_the_record() {
    let log = complete_auth_log(
        record("line"),
        "4294967296".to_string(),
        "Quit".to_string(),
        "ignored".to_string(),
        -1,
    );
    assert_eq!(log.event_created, -1);
    assert_eq!(log.field("session.name"), Some(&FieldValue::Text("4294967296".to_string())));
    assert_eq!(log.field("event.dataset"), Some(&FieldValue::Text("Quit".to_string())));
    assert_eq!(log.field("database.query"), None);
    let log = complete_auth_log(
        record("line"),
        "+7".to_string(),
        "query".to_string(),
        "SELECT 1".to_string(),
        9,
    );
    assert_eq!(log.field("session.id"), Some(&FieldValue::U32(7)));
    assert_eq!(log.field("database.query"), None);
    assert_eq!(log.field("event.dataset"), Some(&FieldValue::Text("query".to_string())));
}

#[test]
fn timestamp_offset_is_applied() {
    let line = "2021-04-08T12:14:18.1+02:00        12 Quit";
    assert_eq!(line.find(" Quit"), Some(37));
    let log = parse_auth_log(record(line)).expect("must be parsed");
    assert_eq!(log.event_created, 1617876858100);
    let line = "1970-01-01T00:00:00.000000Z         1 Quit";
    let log = parse_auth_log(record(line)).expect("must be parsed");
    assert_eq!(log.event_created, 0);
    assert_eq!(log.event_received, 5);
}
