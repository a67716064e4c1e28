use nginx_logs::metrics_layer::{
    metrics_handler, metrics_response, record_access, registered_metrics, render_families, Metrics,
    MetricsFailure, RegisterError,
};
use nginx_logs::parser::parse_access_line;
use prometheus::proto::{MetricFamily, MetricType};
use prometheus::{IntCounter, IntCounterVec, Opts, Registry};

fn exposed(registry: &Registry, metrics: &Metrics) -> String {
    let response = metrics_handler(registry, metrics).unwrap();
    assert_eq!(response.status, 200);
    assert_eq!(response.failure, None);
    assert_eq!(response.content_type.as_deref(), Some("text/plain; version=0.0.4"));
    response.body
}

fn record(metrics: &mut Metrics, line: &str) -> Option<(String, String)> {
    record_access(metrics, &parse_access_line(line)).map(|s| (s.upstream_addr, s.request_time))
}

#[test]
fn new_metrics_show_the_plain_counter_only() {
    let metrics = Metrics::new();
    let mut registry = Registry::new();
    assert_eq!(metrics.register(&mut registry), Ok(()));
    assert_eq!(
        exposed(&registry, &metrics),
        "# HELP nginx_http_502_total Number of HTTP 502 Bad Gateway responses\n\
         # TYPE nginx_http_502_total counter\n\
         nginx_http_502_total 0\n"
    );
}

#[test]
fn metrics_come_with_a_registry() {
    let (mut metrics, mut registry) = registered_metrics();
    record(&mut metrics, "\"r\" 502");
    assert!(exposed(&registry, &metrics).contains("nginx_http_502_total 1\n"));
    assert_eq!(metrics.register(&mut registry), Err(RegisterError::HttpStatusTotal));
}

#[test]
fn a_name_with_other_labels_is_refused() {
    let metrics = Metrics::new();
    let mut registry = Registry::new();
    let other = IntCounter::new("nginx_http_status_class_total", "other help").unwrap();
    registry.register(Box::new(other.clone())).unwrap();
    registry.unregister(Box::new(other)).unwrap();
    assert_eq!(metrics.register(&mut registry), Err(RegisterError::HttpStatusClassTotal));
}

#[test]
fn recorded_lines_are_counted() {
    let mut metrics = Metrics::new();
    let mut registry = Registry::new();
    metrics.register(&mut registry).unwrap();
    let ok = "h \"GET /ok HTTP/1.1\" 200 1 upstream_status=200 upstream_addr=10.0.0.10:443 request_time=0.015";
    let bad = "h \"GET /bad HTTP/1.1\" 502 1 upstream_status=502 upstream_addr=10.0.0.11:443 request_time=0.450";
    let local = "h \"GET /local HTTP/1.1\" 204 1 upstream_status=404 request_time=1e-3";
    let no_time = "h request_time=x";
    let none = "h no request";
    assert_eq!(record(&mut metrics, ok), Some(("10.0.0.10:443".to_string(), "0.015".to_string())));
    assert_eq!(record(&mut metrics, ok), Some(("10.0.0.10:443".to_string(), "0.015".to_string())));
    assert_eq!(record(&mut metrics, bad), Some(("10.0.0.11:443".to_string(), "0.450".to_string())));
    assert_eq!(record(&mut metrics, local), Some(("<none>".to_string(), "1e-3".to_string())));
    assert_eq!(record(&mut metrics, no_time), None);
    assert_eq!(record(&mut metrics, none), None);
    assert_eq!(
        exposed(&registry, &metrics),
        "# HELP nginx_http_502_total Number of HTTP 502 Bad Gateway responses\n\
         # TYPE nginx_http_502_total counter\n\
         nginx_http_502_total 1\n\
         # HELP nginx_http_status_class_total Total number of responses by HTTP status class\n\
         # TYPE nginx_http_status_class_total counter\n\
         nginx_http_status_class_total{class=\"2xx\"} 3\n\
         nginx_http_status_class_total{class=\"5xx\"} 1\n\
         # HELP nginx_http_status_total Total number of responses by HTTP status code\n\
         # TYPE nginx_http_status_total counter\n\
         nginx_http_status_total{status=\"200\"} 2\n\
         nginx_http_status_total{status=\"204\"} 1\n\
         nginx_http_status_total{status=\"502\"} 1\n\
         # HELP nginx_upstream_status_total Total upstream responses by upstream_addr and status\n\
         # TYPE nginx_upstream_status_total counter\n\
         nginx_upstream_status_total{status=\"200\",upstream_addr=\"10.0.0.10:443\"} 2\n\
         nginx_upstream_status_total{status=\"404\",upstream_addr=\"<none>\"} 1\n\
         nginx_upstream_status_total{status=\"502\",upstream_addr=\"10.0.0.11:443\"} 1\n"
    );
}

#[test]
fn the_class_is_the_hundreds_of_the_status() {
    let mut metrics = Metrics::new();
    let mut registry = Registry::new();
    metrics.register(&mut registry).unwrap();
    for status in ["7", "99", "199", "65535"] {
        record(&mut metrics, &format!("\"r\" {}", status));
    }
    let text = exposed(&registry, &metrics);
    assert!(text.contains("nginx_http_status_class_total{class=\"0xx\"} 2\n"));
    assert!(text.contains("nginx_http_status_class_total{class=\"1xx\"} 1\n"));
    assert!(text.contains("nginx_http_status_class_total{class=\"655xx\"} 1\n"));
}

#[test]
fn label_values_that_read_alike_share_a_counter() {
    let mut metrics = Metrics::new();
    let mut registry = Registry::new();
    metrics.register(&mut registry).unwrap();
    record(&mut metrics, "upstream_addr=a:443 upstream_status=20");
    record(&mut metrics, "upstream_addr=a:4432 upstream_status=0");
    let text = exposed(&registry, &metrics);
    assert!(text.contains("nginx_upstream_status_total{status=\"20\",upstream_addr=\"a:443\"} 2\n"));
    assert!(!text.contains("a:4432"));
}

#[test]
fn metrics_are_registered_once() {
    let metrics = Metrics::new();
    let mut registry = Registry::new();
    assert_eq!(metrics.register(&mut registry), Ok(()));
    assert_eq!(metrics.register(&mut registry), Err(RegisterError::HttpStatusTotal));
}

#[test]
fn a_taken_name_is_refused() {
    let names = [
        ("nginx_http_status_total", RegisterError::HttpStatusTotal),
        ("nginx_http_status_class_total", RegisterError::HttpStatusClassTotal),
        ("nginx_http_502_total", RegisterError::Http502Total),
        ("nginx_upstream_status_total", RegisterError::UpstreamStatusTotal),
    ];
    for (name, error) in names {
        let metrics = Metrics::new();
        let mut registry = Registry::new();
        registry.register(Box::new(IntCounter::new(name, "taken").unwrap())).unwrap();
        assert_eq!(metrics.register(&mut registry), Err(error));
    }
}

#[test]
fn registering_stops_at_the_first_refusal() {
    let metrics = Metrics::new();
    let mut registry = Registry::new();
    registry.register(Box::new(IntCounter::new("nginx_http_502_total", "taken").unwrap())).unwrap();
    assert_eq!(metrics.register(&mut registry), Err(RegisterError::Http502Total));
    let again = Metrics::new();
    assert_eq!(again.register(&mut registry), Err(RegisterError::HttpStatusTotal));
}

#[test]
fn an_empty_registry_gives_an_empty_page() {
    assert_eq!(exposed(&Registry::new(), &Metrics::new()), "");
}

#[test]
fn metrics_that_cannot_be_encoded_are_a_failure() {
    let response = render_families(&vec![MetricFamily::default()]).unwrap();
    assert_eq!(response.status, 500);
    assert_eq!(response.content_type, None);
    assert_eq!(response.body, "");
    assert_eq!(response.failure, Some(MetricsFailure::Encoding));
    assert!(response.cause.unwrap().contains("MetricFamily has no metrics"));
}

#[test]
fn untyped_metrics_have_no_answer() {
    let mut family = MetricFamily::default();
    family.set_field_type(MetricType::UNTYPED);
    assert!(render_families(&vec![family]).is_none());
}

#[test]
fn gathered_families_are_rendered() {
    let registry = Registry::new();
    let counter = IntCounter::new("some_total", "Some help").unwrap();
    registry.register(Box::new(counter.clone())).unwrap();
    counter.inc_by(41);
    let response = render_families(&registry.gather()).unwrap();
    assert_eq!(response.status, 200);
    assert_eq!(
        response.body,
        "# HELP some_total Some help\n# TYPE some_total counter\nsome_total 41\n"
    );
}

#[test]
fn encoded_metrics_are_answered() {
    let page = metrics_response(Ok("a\u{e9}\n".as_bytes().to_vec()));
    assert_eq!(page.status, 200);
    assert_eq!(page.content_type.as_deref(), Some("text/plain; version=0.0.4"));
    assert_eq!(page.body, "a\u{e9}\n");
    assert_eq!(page.failure, None);
    assert_eq!(page.cause, None);

    let no_text = metrics_response(Ok(vec![0x61, 0xff]));
    assert_eq!(no_text.status, 500);
    assert_eq!(no_text.content_type, None);
    assert_eq!(no_text.body, "");
    assert_eq!(no_text.failure, Some(MetricsFailure::NotText));
    assert_eq!(
        no_text.cause,
        Some(String::from_utf8(vec![0x61, 0xff]).unwrap_err().to_string())
    );

    let failed = metrics_response(Err("no samples".to_string()));
    assert_eq!(failed.status, 500);
    assert_eq!(failed.content_type, None);
    assert_eq!(failed.body, "");
    assert_eq!(failed.failure, Some(MetricsFailure::Encoding));
    assert_eq!(failed.cause.as_deref(), Some("no samples"));
}

#[test]
fn only_registered_metrics_are_exposed() {
    let (mut metrics, registry) = registered_metrics();
    let mut unregistered = Metrics::new();
    record(&mut unregistered, "\"r\" 502");
    assert!(exposed(&registry, &metrics).contains("nginx_http_502_total 0\n"));
    record(&mut metrics, "\"r\" 502");
    assert!(exposed(&registry, &metrics).contains("nginx_http_502_total 1\n"));
}

#[test]
fn a_second_request_is_answered_as_the_first() {
    let (mut metrics, registry) = registered_metrics();
    for status in 100..600 {
        let line = format!("\"r\" {} upstream_addr=u{} upstream_status=200", status, status);
        record(&mut metrics, &line);
    }
    assert_eq!(exposed(&registry, &metrics), exposed(&registry, &metrics));
}

#[test]
fn the_same_counts_are_answered_alike() {
    let (mut metrics, registry) = registered_metrics();
    let (mut other_metrics, other_registry) = registered_metrics();
    let lines = ["\"r\" 200", "\"r\" 404 upstream_addr=u upstream_status=404", "\"r\" 502"];
    for line in lines {
        record(&mut metrics, line);
    }
    for line in lines.iter().rev() {
        record(&mut other_metrics, line);
    }
    assert_eq!(exposed(&registry, &metrics), exposed(&other_registry, &other_metrics));
}

#[test]
fn metrics_beside_others_are_exposed_too() {
    let (mut metrics, registry) = registered_metrics();
    let other = IntCounter::new("a_total", "Other").unwrap();
    registry.register(Box::new(other.clone())).unwrap();
    other.inc_by(3);
    record(&mut metrics, "\"r\" 301");
    let text = exposed(&registry, &metrics);
    assert!(text.starts_with("# HELP a_total Other\n# TYPE a_total counter\na_total 3\n"));
    assert!(text.contains("nginx_http_status_total{status=\"301\"} 1\n"));
}

#[test]
fn each_metric_has_its_identifier() {
    let ids: [(&str, u64); 4] = [
        ("nginx_http_status_total", 0xa212_07ff_1da6_4677),
        ("nginx_http_status_class_total", 0xada9_f17e_b612_a23e),
        ("nginx_http_502_total", 0xd859_48ea_b9ce_07e4),
        ("nginx_upstream_status_total", 0x3d64_8663_48e5_2446),
    ];
    for (name, id) in ids {
        let counter = IntCounter::new(name, "help").unwrap();
        assert_eq!(prometheus::core::Collector::desc(&counter)[0].id, id);
    }
}

#[test]
fn dimensions_are_the_help_and_the_sorted_labels() {
    let help = "Total upstream responses by upstream_addr and status";
    for labels in [["upstream_addr", "status"], ["status", "upstream_addr"]] {
        let family = IntCounterVec::new(Opts::new("n", help), &labels).unwrap();
        let dims = prometheus::core::Collector::desc(&family)[0].dim_hash;
        assert_eq!(dims, 0xab1c_6253_381f_b9cb);
    }
    let counter = IntCounter::new("n", "Number of HTTP 502 Bad Gateway responses").unwrap();
    let dims = prometheus::core::Collector::desc(&counter)[0].dim_hash;
    assert_eq!(dims, 0x4659_839c_4742_b4d4);
}

#[test]
fn each_status_has_a_counter_of_its_own() {
    let (mut metrics, registry) = registered_metrics();
    for status in 0..=65535u32 {
        record(&mut metrics, &format!("\"r\" {}", status));
    }
    let text = exposed(&registry, &metrics);
    let counters = |name: &str| text.lines().filter(|line| line.starts_with(name)).count();
    assert_eq!(counters("nginx_http_status_total{"), 65536);
    assert_eq!(counters("nginx_http_status_class_total{"), 656);
    assert_eq!(text.matches("\"} 1\n").count(), 65536);
    assert_eq!(text.matches("\"} 100\n").count(), 655);
    assert_eq!(text.matches("\"} 36\n").count(), 1);
}

#[test]
fn a_class_is_the_sum_of_its_statuses() {
    let (mut metrics, registry) = registered_metrics();
    for status in ["500", "502", "502", "503", "599", "499", "600", "-"] {
        record(&mut metrics, &format!("\"r\" {}", status));
    }
    let text = exposed(&registry, &metrics);
    let sum = |name: &str| -> u64 {
        text.lines()
            .filter(|line| line.starts_with(name))
            .map(|line| line.rsplit(' ').next().unwrap().parse::<u64>().unwrap())
            .sum()
    };
    assert_eq!(sum("nginx_http_status_total{status=\"5"), 5);
    assert_eq!(sum("nginx_http_status_class_total{class=\"5xx\"}"), 5);
    assert_eq!(sum("nginx_http_status_total{"), 7);
    assert_eq!(sum("nginx_http_status_class_total{"), 7);
    assert_eq!(sum("nginx_http_502_total"), 2);
    assert_eq!(sum("nginx_http_status_total{status=\"502\"}"), 2);
}
