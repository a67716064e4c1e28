use nginx_logs::health::UnixTime;
use nginx_logs::log_state::{healthz_handler, log_kind_name, ui_handler, LogKind, LogState};
use nginx_logs::metrics_layer::{metrics_handler, Metrics};
use nginx_logs::service::handle_log_line;
use nginx_logs::ui::render_ui_page;
use prometheus::Registry;

fn at(secs: u64) -> UnixTime {
    UnixTime::after_epoch(secs, 0).unwrap()
}

#[test]
fn the_logs_have_names() {
    assert_eq!(log_kind_name(LogKind::Access), "access.log");
    assert_eq!(log_kind_name(LogKind::Error), "error.log");
}

#[test]
fn a_new_state_is_empty() {
    let state = LogState::default();
    assert_eq!(ui_handler(&state, None), render_ui_page(50, "", ""));
    let report = healthz_handler(&state, at(1));
    assert_eq!(report.access_log, report.error_log);
    assert_eq!(report.access_log.last_update_unix, None);
    assert_eq!(report.access_log.seconds_since_last_update, None);
    assert_eq!(report.access_log.lines_seen, 0);
    assert!(state.has_room(LogKind::Access));
    assert!(state.has_room(LogKind::Error));
}

#[test]
fn the_logs_are_independent() {
    let mut state = LogState::default();
    state.record_line("a1", LogKind::Access, at(10));
    state.record_line("e1", LogKind::Error, at(20));
    state.record_line("a2", LogKind::Access, at(30));
    assert_eq!(ui_handler(&state, None), render_ui_page(50, "a1\na2", "e1"));
    assert_eq!(ui_handler(&state, Some(1)), render_ui_page(1, "a2", "e1"));
    let report = healthz_handler(&state, at(35));
    assert_eq!(report.access_log.last_update_unix, Some(30));
    assert_eq!(report.access_log.seconds_since_last_update, Some(5));
    assert_eq!(report.access_log.lines_seen, 2);
    assert_eq!(report.error_log.last_update_unix, Some(20));
    assert_eq!(report.error_log.seconds_since_last_update, Some(15));
    assert_eq!(report.error_log.lines_seen, 1);
}

#[test]
fn the_latest_lines_are_kept() {
    let mut state = LogState::default();
    let mut all = Vec::new();
    for i in 0..2003 {
        let line = format!("line {}", i);
        state.record_line(&line, LogKind::Access, at(i));
        all.push(line);
    }
    let kept = all[3..].join("\n");
    assert_eq!(ui_handler(&state, Some(usize::MAX)), render_ui_page(2000, &kept, ""));
    assert_eq!(ui_handler(&state, Some(0)), render_ui_page(1, "line 2002", ""));
    assert_eq!(
        ui_handler(&state, Some(2)),
        render_ui_page(2, "line 2001\nline 2002", "")
    );
    assert_eq!(healthz_handler(&state, at(3000)).access_log.lines_seen, 2003);
}

#[test]
fn access_lines_are_kept_and_counted() {
    let mut state = LogState::default();
    let mut metrics = Metrics::new();
    let mut registry = Registry::new();
    metrics.register(&mut registry).unwrap();
    let line = "h \"GET / HTTP/1.1\" 502 upstream_addr=u:1,v:2 upstream_status=504 request_time=1.5";
    let sample = handle_log_line(line, LogKind::Access, &mut state, &mut metrics, at(7)).unwrap();
    assert_eq!(sample.upstream_addr, "u:1");
    assert_eq!(sample.request_time, "1.5");
    assert_eq!(ui_handler(&state, None), render_ui_page(50, line, ""));
    let text = metrics_handler(&registry, &metrics).unwrap().body;
    assert!(text.contains("nginx_http_502_total 1\n"));
    assert!(text.contains("nginx_http_status_total{status=\"502\"} 1\n"));
    assert!(text.contains("nginx_upstream_status_total{status=\"504\",upstream_addr=\"u:1\"} 1\n"));
}

#[test]
fn error_lines_are_kept_and_not_counted() {
    let mut state = LogState::default();
    let mut metrics = Metrics::new();
    let mut registry = Registry::new();
    metrics.register(&mut registry).unwrap();
    let line = "h \"GET / HTTP/1.1\" 502 upstream_addr=u:1 upstream_status=504 request_time=1.5";
    assert!(handle_log_line(line, LogKind::Error, &mut state, &mut metrics, at(7)).is_none());
    assert_eq!(ui_handler(&state, None), render_ui_page(50, "", line));
    let text = metrics_handler(&registry, &metrics).unwrap().body;
    assert!(text.contains("nginx_http_502_total 0\n"));
    assert!(!text.contains("nginx_http_status_total"));
}
