use minimetrics::adapter::{collect_netstat, collect_top, collect_top_text, collect_netstat_text, handle_line};
use minimetrics::parsers::{handle_cpu_line, handle_mem_line, handle_netstat_line, handle_proc_line, ParseError};
use minimetrics::record::{Label, MetricName, MetricRecord};
use minimetrics::render::{parse_exposition, render_record, render_snapshot};
use minimetrics::store::DataHolder;
use minimetrics::text::{collapse, remove_first_exec};
use minimetrics::value::{parse_value, Value};

fn cv(s: &str) -> Vec<char> {
    s.chars().collect()
}

fn cs(v: &[char]) -> String {
    v.iter().collect()
}

fn val(int_part: &str, frac_part: &str) -> Value {
    Value { int_part: cv(int_part), frac_part: cv(frac_part) }
}

fn label(key: &str, value: &str) -> Label {
    Label { key: cv(key), value: cv(value) }
}

#[test]
fn cpu_line_four_records() {
    let line = cv("%Cpu(s):  3.2 us,  1.1 sy,  0.0 ni, 95.7 id");
    let records = handle_cpu_line(&line);
    assert_eq!(records.len(), 4);
    assert_eq!(records[0], MetricRecord { name: MetricName::CpuUser, labels: vec![], value: val("3", "2") });
    assert_eq!(records[1], MetricRecord { name: MetricName::CpuSystem, labels: vec![], value: val("1", "1") });
    assert_eq!(records[2], MetricRecord { name: MetricName::CpuNice, labels: vec![], value: val("0", "0") });
    assert_eq!(records[3], MetricRecord { name: MetricName::CpuIdle, labels: vec![], value: val("95", "7") });
}

#[test]
fn cpu_line_unknown_tags_skipped() {
    let line = cv("%Cpu(s):  3.2 us,  0.5 wa,  1.1 sy,  0.0 ni, 95.7 id");
    let records = handle_cpu_line(&line);
    assert_eq!(records.len(), 4);
    assert_eq!(records[0].name, MetricName::CpuUser);
    assert_eq!(records[1].name, MetricName::CpuSystem);
}

#[test]
fn mem_line_four_records() {
    let line = cv("MiB Mem :  15733.0 total,   8466.6 free,   2783.1 used,   4483.3 buff/cache");
    let records = handle_mem_line(&line);
    assert_eq!(records.len(), 4);
    assert_eq!(records[0], MetricRecord { name: MetricName::MemTotal, labels: vec![], value: val("15733", "0") });
    assert_eq!(records[1], MetricRecord { name: MetricName::MemFree, labels: vec![], value: val("8466", "6") });
    assert_eq!(records[2], MetricRecord { name: MetricName::MemUsed, labels: vec![], value: val("2783", "1") });
    assert_eq!(records[3], MetricRecord { name: MetricName::MemBuffered, labels: vec![], value: val("4483", "3") });
}

#[test]
fn proc_row_two_records_shared_labels() {
    let line = cv("  1234 alice     20   0  123456   7890   1234 S  12.5   3.4   0:01.23 myprog");
    let records = handle_proc_line(&line).expect("row parses");
    assert_eq!(records.len(), 2);
    let expected_labels = vec![label("pid", "1234"), label("user", "alice"), label("command", "myprog")];
    assert_eq!(records[0].labels, expected_labels);
    assert_eq!(records[1].labels, expected_labels);
    assert_eq!(records[0].name, MetricName::ProcCpu);
    assert_eq!(records[0].value, val("12", "5"));
    assert_eq!(records[1].name, MetricName::ProcMem);
    assert_eq!(records[1].value, val("7890", ""));
}

#[test]
fn proc_row_too_short() {
    let line = cv("  1234 alice 20 0");
    assert_eq!(handle_proc_line(&line), Err(ParseError::MissingColumns));
}

#[test]
fn proc_row_bad_cpu_column() {
    let line = cv("  1234 alice 20 0 123456 7890 1234 S bad 3.4 0:01.23 myprog");
    assert_eq!(handle_proc_line(&line), Err(ParseError::BadCpuColumn));
}

#[test]
fn proc_row_bad_mem_column() {
    let line = cv("  1234 alice 20 0 123456 bad 1234 S 12.5 3.4 0:01.23 myprog");
    assert_eq!(handle_proc_line(&line), Err(ParseError::BadMemColumn));
}

#[test]
fn netstat_header_and_data_line() {
    let lines = vec![cv("Tcp:"), cv("    1403 active connections openings")];
    let records = collect_netstat(&lines);
    assert_eq!(records.len(), 1);
    assert_eq!(records[0].name, MetricName::NetstatInfo);
    assert_eq!(records[0].labels, vec![label("category", "Tcp"), label("desc", "active connections openings")]);
    assert_eq!(records[0].value, val("1403", ""));
}

#[test]
fn netstat_line_one_record_per_digit_run() {
    let header = cv("Ip");
    let line = cv("    5 dropped because of 7 errors");
    let records = handle_netstat_line(&header, &line);
    assert_eq!(records.len(), 2);
    assert_eq!(records[0].value, val("5", ""));
    assert_eq!(records[0].labels, vec![label("category", "Ip"), label("desc", "dropped because of 7 errors")]);
    assert_eq!(records[1].value, val("7", ""));
    assert_eq!(records[1].labels, vec![label("category", "Ip"), label("desc", "5 dropped because of errors")]);
}

#[test]
fn netstat_repeated_run_removes_first_occurrence() {
    let header = cv("Udp");
    let line = cv("    12 of 12 packets");
    let records = handle_netstat_line(&header, &line);
    assert_eq!(records.len(), 2);
    assert_eq!(records[0].value, val("12", ""));
    assert_eq!(cs(&records[0].labels[1].value), "of 12 packets");
    assert_eq!(records[1].value, val("12", ""));
    assert_eq!(cs(&records[1].labels[1].value), "of 12 packets");
}

#[test]
fn reparse_same_line_identical() {
    let line = cv("%Cpu(s):  3.2 us,  1.1 sy,  0.0 ni, 95.7 id");
    assert_eq!(handle_cpu_line(&line), handle_cpu_line(&line));
    let header = cv("Tcp");
    let data = cv("    1403 active connections openings");
    assert_eq!(handle_netstat_line(&header, &data), handle_netstat_line(&header, &data));
}

#[test]
fn line_classification_dispatch() {
    assert_eq!(handle_line(&cv("%Cpu(s):  3.2 us,  1.1 sy,  0.0 ni, 95.7 id")).unwrap().len(), 4);
    assert_eq!(handle_line(&cv("Tasks: 291 total,   1 running")).unwrap().len(), 0);
    assert_eq!(handle_line(&cv("")).unwrap().len(), 0);
    assert_eq!(handle_line(&cv("   ")).unwrap().len(), 0);
    assert!(handle_line(&cv("  1234 alice 20 0 123456 7890 1234 S 12.5 3.4 0:01.23 myprog")).is_ok());
}

#[test]
fn collect_top_records_and_errors() {
    let lines = vec![
        cv("top - 12:00:00 up 1 day"),
        cv("%Cpu(s):  3.2 us,  1.1 sy,  0.0 ni, 95.7 id"),
        cv("MiB Mem :  100.0 total,   50.0 free,   25.0 used,   25.0 buff/cache"),
        cv("  1234 alice 20 0 123456 7890 1234 S 12.5 3.4 0:01.23 myprog"),
        cv("  999 bob 20 0 1 bad 1 S bad 1.0 0:00.00 otherprog"),
    ];
    let (records, errors) = collect_top(&lines);
    assert_eq!(records.len(), 10);
    assert_eq!(errors.len(), 1);
    assert_eq!(errors[0], ParseError::BadCpuColumn);
}

#[test]
fn empty_output_yields_nothing() {
    let (records, errors) = collect_top_text(&cv(""));
    assert_eq!(records.len(), 0);
    assert_eq!(errors.len(), 0);
    let records = collect_netstat_text(&cv(""));
    assert_eq!(records.len(), 0);
    let body = render_snapshot(&Vec::new());
    assert_eq!(cs(&body), "");
}

#[test]
fn failed_cycle_leaves_source_absent() {
    let mut store = DataHolder::new();
    store.push_data(MetricRecord { name: MetricName::NetstatInfo, labels: vec![label("category", "Tcp"), label("desc", "stale")], value: val("9", "") });
    store.clear_data();
    let (top_records, _) = collect_top_text(&cv("%Cpu(s):  3.2 us,  1.1 sy,  0.0 ni, 95.7 id"));
    store.push_all(top_records);
    let body = cs(&render_snapshot(store.get_data()));
    assert!(!body.contains("netstat_info"));
    assert!(body.contains("cpu_user{} 3.2"));
}

#[test]
fn render_exact_byte_layout() {
    let records = vec![
        MetricRecord { name: MetricName::CpuUser, labels: vec![], value: val("3", "2") },
        MetricRecord {
            name: MetricName::NetstatInfo,
            labels: vec![label("category", "Tcp"), label("desc", "active connections openings")],
            value: val("1403", ""),
        },
    ];
    let body = cs(&render_snapshot(&records));
    assert_eq!(body, "cpu_user{} 3.2\nnetstat_info{category=\"Tcp\", desc=\"active connections openings\"} 1403");
}

#[test]
fn render_single_record_line() {
    let rec = MetricRecord {
        name: MetricName::ProcCpu,
        labels: vec![label("pid", "1"), label("user", "root"), label("command", "init")],
        value: val("0", "5"),
    };
    assert_eq!(cs(&render_record(&rec)), "proc_cpu{pid=\"1\", user=\"root\", command=\"init\"} 0.5");
}

#[test]
fn exposition_round_trip() {
    let records = vec![
        MetricRecord { name: MetricName::CpuUser, labels: vec![], value: val("3", "2") },
        MetricRecord { name: MetricName::MemTotal, labels: vec![], value: val("15733", "0") },
        MetricRecord {
            name: MetricName::ProcMem,
            labels: vec![label("pid", "42"), label("user", "alice"), label("command", "prog")],
            value: val("7", "") ,
        },
        MetricRecord {
            name: MetricName::NetstatInfo,
            labels: vec![label("category", "Tcp"), label("desc", "active connections openings")],
            value: val("1403", ""),
        },
    ];
    let body = render_snapshot(&records);
    let read_back = parse_exposition(&body).expect("rendered body parses");
    assert_eq!(read_back, records);
}

#[test]
fn exposition_round_trip_empty() {
    let body = render_snapshot(&Vec::new());
    let read_back = parse_exposition(&body).expect("empty body parses");
    assert_eq!(read_back.len(), 0);
}

#[test]
fn value_comma_decimal_separator() {
    let v = parse_value(&cv("3,2")).expect("comma decimal parses");
    assert_eq!(v, val("3", "2"));
    let v = parse_value(&cv(" 1403 ")).expect("plain integer parses");
    assert_eq!(v, val("1403", ""));
}

#[test]
fn value_rejects_malformed_tokens() {
    assert_eq!(parse_value(&cv("1.2.3")), None);
    assert_eq!(parse_value(&cv("abc")), None);
    assert_eq!(parse_value(&cv("")), None);
    assert_eq!(parse_value(&cv(".")), None);
    assert_eq!(parse_value(&cv("3.")), None);
}

#[test]
fn store_push_get_clear() {
    let mut store = DataHolder::new();
    assert_eq!(store.get_data().len(), 0);
    store.push_data(MetricRecord { name: MetricName::CpuUser, labels: vec![], value: val("1", "") });
    store.push_data(MetricRecord { name: MetricName::CpuIdle, labels: vec![], value: val("99", "") });
    assert_eq!(store.get_data().len(), 2);
    store.clear_data();
    assert_eq!(store.get_data().len(), 0);
}

#[test]
fn collapse_and_remove_first() {
    assert_eq!(cs(&collapse(&cv("  a   b  "))), "a b");
    assert_eq!(cs(&remove_first_exec(&cv("ab12cd12"), &cv("12"))), "abcd12");
    assert_eq!(cs(&remove_first_exec(&cv("abc"), &cv("zz"))), "abc");
}
