use nginx_logs::parser::{
    extract_kv_value, parse_access_line, parse_status_code_from_access, parse_status_field,
};

const OK_LINE: &str = r#"127.0.0.1 - - [05/Dec/2025:12:00:00 +0100] "GET /ok HTTP/1.1" 200 123 "-" "curl/8.0" "-" upstream_status=200 upstream_addr=10.0.0.10:443 request_time=0.015"#;
const BAD_LINE: &str = r#"127.0.0.1 - - [05/Dec/2025:12:00:01 +0100] "GET /bad HTTP/1.1" 502 321 "-" "curl/8.0" "-" upstream_status=502 upstream_addr=10.0.0.11:443 request_time=0.450"#;
const ES_LINE: &str = r#"10.220.24.33 - tsm-change-management [07/Dec/2025:09:11:56 +0000] "GET /_cluster/health/ HTTP/1.1" 200 416 "-" "elasticsearch-java/8.15.5 (Java/21.0.9)" "-" upstream_status=200 upstream_addr=172.29.188.7:9200 request_time=0.001 upstream_label=es-backend"#;

#[test]
fn a_line_with_all_fields() {
    let parsed = parse_access_line(OK_LINE);
    assert_eq!(parsed.raw, OK_LINE);
    assert_eq!(parsed.status, Some(200));
    assert_eq!(parsed.upstream_addr.as_deref(), Some("10.0.0.10:443"));
    assert_eq!(parsed.upstream_status, Some(200));
    assert_eq!(parsed.request_time.as_deref(), Some("0.015"));
}

#[test]
fn a_line_of_a_bad_gateway() {
    let parsed = parse_access_line(BAD_LINE);
    assert_eq!(parsed.status, Some(502));
    assert_eq!(parsed.upstream_addr.as_deref(), Some("10.0.0.11:443"));
    assert_eq!(parsed.upstream_status, Some(502));
    assert_eq!(parsed.request_time.as_deref(), Some("0.450"));
}

#[test]
fn a_line_with_a_field_behind_the_duration() {
    let parsed = parse_access_line(ES_LINE);
    assert_eq!(parsed.status, Some(200));
    assert_eq!(parsed.upstream_addr.as_deref(), Some("172.29.188.7:9200"));
    assert_eq!(parsed.upstream_status, Some(200));
    assert_eq!(parsed.request_time.as_deref(), Some("0.001"));
}

#[test]
fn of_lists_the_first_entry_counts() {
    let parsed = parse_access_line(
        r#"x "r" 200 upstream_status=200,502,404 upstream_addr=10.0.0.10:443,10.0.0.11:443"#,
    );
    assert_eq!(parsed.upstream_status, Some(200));
    assert_eq!(parsed.upstream_addr.as_deref(), Some("10.0.0.10:443"));
    assert_eq!(parsed.request_time, None);
}

#[test]
fn missing_values_are_none() {
    let parsed = parse_access_line(
        r#"x "r" 204 upstream_status=- upstream_addr=- request_time=-"#,
    );
    assert_eq!(parsed.status, Some(204));
    assert_eq!(parsed.upstream_addr, None);
    assert_eq!(parsed.upstream_status, None);
    assert_eq!(parsed.request_time, None);

    let parsed = parse_access_line("upstream_status= upstream_addr=,a request_time=");
    assert_eq!(parsed.status, None);
    assert_eq!(parsed.upstream_addr, None);
    assert_eq!(parsed.upstream_status, None);
    assert_eq!(parsed.request_time, None);

    let parsed = parse_access_line("upstream_status=-,200 upstream_addr=-,10.0.0.1:80");
    assert_eq!(parsed.upstream_addr, None);
    assert_eq!(parsed.upstream_status, None);
}

#[test]
fn the_status_is_the_word_behind_the_request() {
    assert_eq!(parse_status_code_from_access(r#"a "b" 404"#), Some(404));
    assert_eq!(parse_status_code_from_access(r#"a "b"   404 "c" 500"#), Some(404));
    assert_eq!(parse_status_code_from_access(r#""b"404"#), Some(404));
    assert_eq!(parse_status_code_from_access(r#"a "b 404"#), None);
    assert_eq!(parse_status_code_from_access("a b 404"), None);
    assert_eq!(parse_status_code_from_access(r#"a "b""#), None);
    assert_eq!(parse_status_code_from_access(r#"a "b" -"#), None);
    assert_eq!(parse_status_code_from_access(r#"a "b" 65536"#), None);
    assert_eq!(parse_status_code_from_access(r#"é "ü" 200"#), Some(200));
    assert_eq!(parse_status_code_from_access(r#"a "q\"uoted" 200"#), None);
}

#[test]
fn a_status_that_was_written_is_read() {
    for status in [0_u16, 7, 99, 100, 204, 502, 65535] {
        let line = format!("host - - [now] \"GET / HTTP/1.1\" {} 12", status);
        assert_eq!(parse_status_code_from_access(&line), Some(status));
    }
}

#[test]
fn a_field_goes_to_the_next_space() {
    assert_eq!(extract_kv_value("a k=1 k=2", "k="), Some("1"));
    assert_eq!(extract_kv_value("k=é,ü z", "k="), Some("é,ü"));
    assert_eq!(extract_kv_value("k=tab\tgoes on", "k="), Some("tab\tgoes"));
    assert_eq!(extract_kv_value("kk=1", "k="), Some("1"));
    assert_eq!(extract_kv_value("k=", "k="), None);
    assert_eq!(extract_kv_value("k= v", "k="), None);
    assert_eq!(extract_kv_value("k=- v", "k="), None);
    assert_eq!(extract_kv_value("k=-- v", "k="), Some("--"));
    assert_eq!(extract_kv_value("no such key", "k="), None);
    assert_eq!(extract_kv_value("value rest", ""), Some("value"));
}

#[test]
fn a_status_entry_may_have_white_space_around_it() {
    assert_eq!(parse_status_field("200"), Some(200));
    assert_eq!(parse_status_field(" 502\t"), Some(502));
    assert_eq!(parse_status_field("-"), None);
    assert_eq!(parse_status_field(""), None);
    assert_eq!(parse_status_field("20x"), None);
    assert_eq!(parse_status_field("+200"), Some(200));
}

#[test]
fn a_parsed_line_can_be_copied() {
    let parsed = parse_access_line(OK_LINE);
    let copy = parsed.clone();
    assert_eq!(copy.raw, parsed.raw);
    assert_eq!(copy.status, parsed.status);
    assert_eq!(copy.request_time, parsed.request_time);
}

#[test]
fn a_duration_that_is_no_number_is_none() {
    let parsed = parse_access_line("request_time=0.1,0.2 upstream_status=-,200");
    assert_eq!(parsed.request_time, None);
    assert_eq!(parsed.upstream_status, None);
    assert_eq!(parsed.upstream_addr, None);
    for text in ["x", "0.1s", "1,5", "1.2.3", ".", "+", "e5", "1e", "0x10", "\u{661}"] {
        assert_eq!(parse_access_line(&format!("request_time={}", text)).request_time, None);
    }
    for text in ["0.015", "1", "-0.5", "+.5", "5.", "1e-3", "1.5E+10", "NaN", "-Infinity", "inf"] {
        let parsed = parse_access_line(&format!("request_time={} z", text));
        assert_eq!(parsed.request_time.as_deref(), Some(text));
    }
}

#[test]
fn the_order_of_the_fields_does_not_matter() {
    let head = "h \"GET / HTTP/1.1\" 302 7 ";
    let fields = ["upstream_status=502,200", "upstream_addr=a:1,b:2", "request_time=0.250"];
    let orders = [[0, 1, 2], [0, 2, 1], [1, 0, 2], [1, 2, 0], [2, 0, 1], [2, 1, 0]];
    for order in orders {
        let line = format!("{}{}", head, order.map(|i| fields[i]).join(" "));
        let parsed = parse_access_line(&line);
        assert_eq!(parsed.status, Some(302));
        assert_eq!(parsed.upstream_status, Some(502));
        assert_eq!(parsed.upstream_addr.as_deref(), Some("a:1"));
        assert_eq!(parsed.request_time.as_deref(), Some("0.250"));
    }
}
