//! The metrics that the access log feeds, and their exposition.
use prometheus::proto::MetricFamily;
use prometheus::Registry;
use vstd::prelude::*;
use vstd::utf8::{decode_utf8, decode_utf8_encode_utf8, encode_utf8, valid_utf8};

use crate::counters::{
    adds_nothing, bumped, counter_help, counter_name, counter_value, encode_text, exposes_counter,
    exposes_family, family_filled, family_help, family_labels, family_name, family_series,
    family_untyped, gather_families, gathered_alone, inc_counter, inc_series, is_untyped,
    may_gather, metric_dims, metric_id, new_counter, new_family, next_count, register_counter,
    register_family, registry_record, series_key, shows_count, shows_series, slice_texts,
    text_encoding, text_format, valid_label_name, valid_metric_name, CounterFamily, CounterRecord,
    FamilyRecord, PlainCounter, RegistryRecord,
};
use crate::keys::lemma_metric_ids;
use crate::number::{
    decimal, decimal_text, digits_value, is_digit, law_decimal_goes_by_digits,
    law_decimal_reads_back, push_decimal,
};
use crate::parser::{optional_text, AccessRecord, ParsedAccess};
use crate::text::text_from_utf8;

verus! {

// ---------------------------------------------------------------------------
// Recording
// ---------------------------------------------------------------------------

/// The name of the counters of responses by status.
pub const HTTP_STATUS_TOTAL: &'static str = "nginx_http_status_total";

/// The name of the counters of responses by class of status.
pub const HTTP_STATUS_CLASS_TOTAL: &'static str = "nginx_http_status_class_total";

/// The name of the counter of responses with the status 502.
pub const HTTP_502_TOTAL: &'static str = "nginx_http_502_total";

/// The name of the counters of upstream responses by upstream and status.
pub const UPSTREAM_STATUS_TOTAL: &'static str = "nginx_upstream_status_total";

/// The help text of the counters of responses by status.
pub const HTTP_STATUS_HELP: &'static str = "Total number of responses by HTTP status code";

/// The help text of the counters of responses by class of status.
pub const HTTP_STATUS_CLASS_HELP: &'static str = "Total number of responses by HTTP status class";

/// The help text of the counter of responses with the status 502.
pub const HTTP_502_HELP: &'static str = "Number of HTTP 502 Bad Gateway responses";

/// The help text of the counters of upstream responses by upstream and status.
pub const UPSTREAM_STATUS_HELP: &'static str =
    "Total upstream responses by upstream_addr and status";

/// The label of an upstream where a line names none.
pub const NO_UPSTREAM: &'static str = "<none>";

/// The counters that the access log feeds.
pub struct Metrics {
    http_status_total: CounterFamily,
    http_status_class_total: CounterFamily,
    http_502_total: PlainCounter,
    upstream_status_total: CounterFamily,
}

/// The mathematical content of [`Metrics`]: what each metric has counted.
#[verifier::ext_equal]
pub struct MetricsRecord {
    pub status: Map<u64, (Seq<Seq<char>>, u64)>,
    pub class: Map<u64, (Seq<Seq<char>>, u64)>,
    pub bad_gateway: u64,
    pub upstream: Map<u64, (Seq<Seq<char>>, u64)>,
}

impl View for Metrics {
    type V = MetricsRecord;

    closed spec fn view(&self) -> MetricsRecord {
        MetricsRecord {
            status: family_series(self.http_status_total),
            class: family_series(self.http_status_class_total),
            bad_gateway: counter_value(self.http_502_total),
            upstream: family_series(self.upstream_status_total),
        }
    }
}

impl MetricsRecord {
    /// Nothing was counted yet.
    pub open spec fn empty() -> MetricsRecord {
        MetricsRecord {
            status: Map::empty(),
            class: Map::empty(),
            bad_gateway: 0,
            upstream: Map::empty(),
        }
    }
}

/// The label values of a client's status.
pub open spec fn status_values(status: u16) -> Seq<Seq<char>> {
    seq![decimal(status as nat)]
}

/// The label values of the class of a client's status: `2xx` for 204.
pub open spec fn class_values(status: u16) -> Seq<Seq<char>> {
    seq![decimal((status / 100) as nat) + "xx"@]
}

/// The label of the upstream of a line.
pub open spec fn upstream_label(record: AccessRecord) -> Seq<char> {
    match record.upstream_addr {
        Some(addr) => addr,
        None => NO_UPSTREAM@,
    }
}

/// The label values of an upstream's status.
pub open spec fn upstream_values(record: AccessRecord, status: u16) -> Seq<Seq<char>> {
    seq![upstream_label(record), decimal(status as nat)]
}

/// The counters of a family after the one for some label values was increased;
/// the same counters where there are none.
pub open spec fn counted(
    series: Map<u64, (Seq<Seq<char>>, u64)>,
    values: Option<Seq<Seq<char>>>,
) -> Map<u64, (Seq<Seq<char>>, u64)> {
    match values {
        Some(v) => bumped(series, series_key(v.flatten()), v),
        None => series,
    }
}

impl AccessRecord {
    /// What the line counts as in the counters by status.
    pub open spec fn status_entry(self) -> Option<Seq<Seq<char>>> {
        match self.status {
            Some(status) => Some(status_values(status)),
            None => None,
        }
    }

    /// What the line counts as in the counters by class of status.
    pub open spec fn class_entry(self) -> Option<Seq<Seq<char>>> {
        match self.status {
            Some(status) => Some(class_values(status)),
            None => None,
        }
    }

    /// What the line counts as in the counters by upstream and status.
    pub open spec fn upstream_entry(self) -> Option<Seq<Seq<char>>> {
        match self.upstream_status {
            Some(status) => Some(upstream_values(self, status)),
            None => None,
        }
    }
}

/// What the metrics have counted after one more line.
pub open spec fn recorded(metrics: MetricsRecord, record: AccessRecord) -> MetricsRecord {
    MetricsRecord {
        status: counted(metrics.status, record.status_entry()),
        class: counted(metrics.class, record.class_entry()),
        bad_gateway: if record.status == Some(502u16) {
            next_count(metrics.bad_gateway)
        } else {
            metrics.bad_gateway
        },
        upstream: counted(metrics.upstream, record.upstream_entry()),
    }
}

/// A duration to be observed: how long a request took, in seconds, as its line
/// spells it, and the label of its upstream.
#[derive(Debug)]
pub struct DurationSample {
    pub upstream_addr: String,
    pub request_time: String,
}

/// The label and the duration of a sample.
pub open spec fn sample_of(sample: Option<DurationSample>) -> Option<(Seq<char>, Seq<char>)> {
    match sample {
        Some(s) => Some((s.upstream_addr@, s.request_time@)),
        None => None,
    }
}

/// What is to be observed of a line: the label of its upstream, and its
/// duration.
pub open spec fn duration_of(record: AccessRecord) -> Option<(Seq<char>, Seq<char>)> {
    match record.request_time {
        Some(time) => Some((upstream_label(record), time)),
        None => None,
    }
}

/// Why the metrics could not be registered: which of them was refused.
#[derive(Debug, Clone, Copy, PartialEq, Eq, Structural)]
pub enum RegisterError {
    HttpStatusTotal,
    HttpStatusClassTotal,
    Http502Total,
    UpstreamStatusTotal,
}

/// The name, the help text and the label names of a metric.
pub struct MetricShape {
    pub name: Seq<char>,
    pub help: Seq<char>,
    pub labels: Seq<Seq<char>>,
}

impl MetricShape {
    /// The registry takes a metric of this shape.
    pub open spec fn taken_by(self, registry: RegistryRecord) -> bool {
        registry.takes(self.name, metric_id(self.name), metric_dims(self.help, self.labels))
    }

    /// A family of this shape with some counters.
    pub open spec fn with_series(self, series: Map<u64, (Seq<Seq<char>>, u64)>) -> FamilyRecord {
        FamilyRecord { name: self.name, help: self.help, labels: self.labels, series }
    }

    /// The registry after it was given a metric of this shape.
    pub open spec fn given_to(self, registry: RegistryRecord) -> RegistryRecord {
        registry.given(self.name, metric_id(self.name), metric_dims(self.help, self.labels))
    }
}

/// The counters of responses by status.
pub open spec fn status_shape() -> MetricShape {
    MetricShape { name: HTTP_STATUS_TOTAL@, help: HTTP_STATUS_HELP@, labels: seq!["status"@] }
}

/// The counters of responses by class of status.
pub open spec fn class_shape() -> MetricShape {
    MetricShape {
        name: HTTP_STATUS_CLASS_TOTAL@,
        help: HTTP_STATUS_CLASS_HELP@,
        labels: seq!["class"@],
    }
}

/// The counter of responses with the status 502.
pub open spec fn bad_gateway_shape() -> MetricShape {
    MetricShape { name: HTTP_502_TOTAL@, help: HTTP_502_HELP@, labels: Seq::empty() }
}

/// The counters of upstream responses by upstream and status.
pub open spec fn upstream_shape() -> MetricShape {
    MetricShape {
        name: UPSTREAM_STATUS_TOTAL@,
        help: UPSTREAM_STATUS_HELP@,
        labels: seq!["upstream_addr"@, "status"@],
    }
}

/// The identifiers of the metrics.
pub open spec fn metric_ids() -> Set<u64> {
    set![
        metric_id(HTTP_STATUS_TOTAL@),
        metric_id(HTTP_STATUS_CLASS_TOTAL@),
        metric_id(UPSTREAM_STATUS_TOTAL@),
        metric_id(HTTP_502_TOTAL@),
    ]
}

/// Registering the metrics one after the other, up to the first that is refused:
/// what comes of it, and what the registry then holds.
pub open spec fn registration(registry: RegistryRecord) -> (
    Result<(), RegisterError>,
    RegistryRecord,
) {
    let first = status_shape().given_to(registry);
    let second = class_shape().given_to(first);
    let third = bad_gateway_shape().given_to(second);
    let fourth = upstream_shape().given_to(third);
    if !status_shape().taken_by(registry) {
        (Err(RegisterError::HttpStatusTotal), first)
    } else if !class_shape().taken_by(first) {
        (Err(RegisterError::HttpStatusClassTotal), second)
    } else if !bad_gateway_shape().taken_by(second) {
        (Err(RegisterError::Http502Total), third)
    } else if !upstream_shape().taken_by(third) {
        (Err(RegisterError::UpstreamStatusTotal), fourth)
    } else {
        (Ok(()), fourth)
    }
}

/// The names of the metrics and of their labels are valid.
proof fn lemma_names_are_valid()
    ensures
        valid_metric_name(HTTP_STATUS_TOTAL@),
        valid_metric_name(HTTP_STATUS_CLASS_TOTAL@),
        valid_metric_name(HTTP_502_TOTAL@),
        valid_metric_name(UPSTREAM_STATUS_TOTAL@),
        valid_label_name("status"@),
        valid_label_name("class"@),
        valid_label_name("upstream_addr"@),
        "upstream_addr"@ != "status"@,
{
    reveal_strlit("nginx_http_status_total");
    reveal_strlit("nginx_http_status_class_total");
    reveal_strlit("nginx_http_502_total");
    reveal_strlit("nginx_upstream_status_total");
    reveal_strlit("status");
    reveal_strlit("class");
    reveal_strlit("upstream_addr");
}

/// The help texts are not empty.
proof fn lemma_help_is_given()
    ensures
        HTTP_STATUS_HELP@.len() > 0,
        HTTP_STATUS_CLASS_HELP@.len() > 0,
        HTTP_502_HELP@.len() > 0,
        UPSTREAM_STATUS_HELP@.len() > 0,
{
    reveal_strlit("Total number of responses by HTTP status code");
    reveal_strlit("Total number of responses by HTTP status class");
    reveal_strlit("Number of HTTP 502 Bad Gateway responses");
    reveal_strlit("Total upstream responses by upstream_addr and status");
}

/// A family has a shape.
spec fn family_has_shape(family: CounterFamily, shape: MetricShape) -> bool {
    &&& family_name(family) == shape.name
    &&& family_help(family) == shape.help
    &&& family_labels(family) == shape.labels
}

impl Metrics {
    /// Each metric has its name, its help text and its labels.
    pub closed spec fn wf(self) -> bool {
        &&& family_has_shape(self.http_status_total, status_shape())
        &&& family_has_shape(self.http_status_class_total, class_shape())
        &&& counter_name(self.http_502_total) == HTTP_502_TOTAL@
        &&& counter_help(self.http_502_total) == HTTP_502_HELP@
        &&& family_has_shape(self.upstream_status_total, upstream_shape())
    }

    /// The registry holds these very metrics: what it gathers of them are their
    /// counts.
    pub closed spec fn exposed_by(self, registry: Registry) -> bool {
        &&& exposes_family(registry, self.http_status_total)
        &&& exposes_family(registry, self.http_status_class_total)
        &&& exposes_counter(registry, self.http_502_total)
        &&& exposes_family(registry, self.upstream_status_total)
    }

    /// The registry holds these very metrics and nothing else, and adds nothing
    /// to them.
    pub open spec fn alone_in(self, registry: Registry) -> bool {
        &&& self.exposed_by(registry)
        &&& registry_record(registry).collectors == metric_ids()
        &&& adds_nothing(registry)
    }

    /// The metrics, before anything was counted.
    pub fn new() -> (metrics: Metrics)
        ensures
            metrics.wf(),
            metrics@ == MetricsRecord::empty(),
    {
        let status_labels: [&str; 1] = ["status"];
        let class_labels: [&str; 1] = ["class"];
        let upstream_labels: [&str; 2] = ["upstream_addr", "status"];
        proof {
            lemma_names_are_valid();
            lemma_help_is_given();
            assert(slice_texts(status_labels@) =~= seq!["status"@]);
            assert(slice_texts(class_labels@) =~= seq!["class"@]);
            assert(slice_texts(upstream_labels@) =~= seq!["upstream_addr"@, "status"@]);
        }
        Metrics {
            http_status_total: new_family(
                HTTP_STATUS_TOTAL,
                HTTP_STATUS_HELP,
                &status_labels,
            ).unwrap(),
            http_status_class_total: new_family(
                HTTP_STATUS_CLASS_TOTAL,
                HTTP_STATUS_CLASS_HELP,
                &class_labels,
            ).unwrap(),
            http_502_total: new_counter(HTTP_502_TOTAL, HTTP_502_HELP).unwrap(),
            upstream_status_total: new_family(
                UPSTREAM_STATUS_TOTAL,
                UPSTREAM_STATUS_HELP,
                &upstream_labels,
            ).unwrap(),
        }
    }

    /// Registers the metrics, one after the other, up to the first that the
    /// registry refuses. If it refuses none, it exposes them from then on, beside
    /// what it exposed before.
    pub fn register(&self, registry: &mut Registry) -> (registered: Result<(), RegisterError>)
        requires
            self.wf(),
        ensures
            (registered, registry_record(*final(registry))) == registration(
                registry_record(*old(registry)),
            ),
            registered is Ok ==> self.exposed_by(*final(registry)),
            forall|other: Metrics|
                other.exposed_by(*old(registry)) ==> #[trigger] other.exposed_by(*final(registry)),
            adds_nothing(*final(registry)) == adds_nothing(*old(registry)),
    {
        if register_family(registry, &self.http_status_total).is_err() {
            return Err(RegisterError::HttpStatusTotal);
        }
        if register_family(registry, &self.http_status_class_total).is_err() {
            return Err(RegisterError::HttpStatusClassTotal);
        }
        if register_counter(registry, &self.http_502_total).is_err() {
            return Err(RegisterError::Http502Total);
        }
        if register_family(registry, &self.upstream_status_total).is_err() {
            return Err(RegisterError::UpstreamStatusTotal);
        }
        Ok(())
    }
}

/// The metrics, before anything was counted, in a registry of their own.
pub fn registered_metrics() -> (made: (Metrics, Registry))
    ensures
        made.0.wf(),
        made.0@ == MetricsRecord::empty(),
        made.0.alone_in(made.1),
        registry_record(made.1) == registration(RegistryRecord::empty()).1,
{
    let metrics = Metrics::new();
    let mut registry = Registry::new();
    assert(registry_record(registry) =~= RegistryRecord::empty());
    proof {
        law_new_registry_takes_the_metrics();
    }
    metrics.register(&mut registry).unwrap();
    (metrics, registry)
}

/// Counts a line of the access log, and gives the duration to be observed, if
/// the line has one. A registry that exposes the metrics goes on to do so.
pub fn record_access(metrics: &mut Metrics, parsed: &ParsedAccess) -> (sample: Option<
    DurationSample,
>)
    requires
        old(metrics).wf(),
    ensures
        final(metrics).wf(),
        final(metrics)@ == recorded(old(metrics)@, parsed@),
        forall|registry: Registry|
            old(metrics).exposed_by(registry) ==> #[trigger] final(metrics).exposed_by(registry),
        sample_of(sample) == duration_of(parsed@),
{
    if let Some(status) = parsed.status {
        let status_text = decimal_text(status as u64);
        let values: [&str; 1] = [status_text.as_str()];
        assert(slice_texts(values@) =~= status_values(status));
        inc_series(&mut metrics.http_status_total, &values);

        let mut class = String::new();
        push_decimal(&mut class, (status / 100) as u64);
        class.append("xx");
        let values: [&str; 1] = [class.as_str()];
        assert(class@ =~= decimal((status / 100) as nat) + "xx"@);
        assert(slice_texts(values@) =~= class_values(status));
        inc_series(&mut metrics.http_status_class_total, &values);

        if status == 502 {
            inc_counter(&mut metrics.http_502_total);
        }
    }
    let label = match &parsed.upstream_addr {
        Some(addr) => addr.as_str(),
        None => NO_UPSTREAM,
    };
    if let Some(status) = parsed.upstream_status {
        let status_text = decimal_text(status as u64);
        let values: [&str; 2] = [label, status_text.as_str()];
        assert(slice_texts(values@) =~= upstream_values(parsed@, status));
        inc_series(&mut metrics.upstream_status_total, &values);
    }
    match &parsed.request_time {
        Some(time) => Some(
            DurationSample {
                upstream_addr: label.to_string(),
                request_time: time.as_str().to_string(),
            },
        ),
        None => None,
    }
}

// ---------------------------------------------------------------------------
// Exposition
// ---------------------------------------------------------------------------

/// The media type of the exposition.
pub const TEXT_MEDIA_TYPE: &'static str = "text/plain; version=0.0.4";

/// The answer to a request for the metrics.
#[derive(Debug)]
pub struct MetricsResponse {
    /// The status of the answer.
    pub status: u16,
    /// The media type of the body, where there is one.
    pub content_type: Option<String>,
    /// The body.
    pub body: String,
    /// What went wrong, where something did.
    pub failure: Option<MetricsFailure>,
    /// The words of the failure, for a log.
    pub cause: Option<String>,
}

/// Why a request for the metrics fails.
#[derive(Debug, Clone, Copy, PartialEq, Eq, Structural)]
pub enum MetricsFailure {
    /// The metrics could not be encoded.
    Encoding,
    /// What they were encoded as is no text.
    NotText,
}

/// The mathematical content of a [`MetricsResponse`], without the words of a
/// failure.
#[verifier::ext_equal]
pub struct ResponseRecord {
    pub status: u16,
    pub content_type: Option<Seq<char>>,
    pub body: Seq<char>,
    pub failure: Option<MetricsFailure>,
}

impl ResponseRecord {
    /// The answer where something went wrong: a status and no body.
    pub open spec fn failed(failure: MetricsFailure) -> ResponseRecord {
        ResponseRecord {
            status: 500,
            content_type: None,
            body: Seq::empty(),
            failure: Some(failure),
        }
    }
}

impl View for MetricsResponse {
    type V = ResponseRecord;

    open spec fn view(&self) -> ResponseRecord {
        ResponseRecord {
            status: self.status,
            content_type: optional_text(self.content_type),
            body: self.body@,
            failure: self.failure,
        }
    }
}

/// The answer for encoded metrics: their text, or a failure where they could
/// not be encoded or are no text.
pub open spec fn response_to(encoded: Option<Seq<u8>>) -> ResponseRecord {
    match encoded {
        Some(bytes) if valid_utf8(bytes) => ResponseRecord {
            status: 200,
            content_type: Some(TEXT_MEDIA_TYPE@),
            body: decode_utf8(bytes),
            failure: None,
        },
        Some(_) => ResponseRecord::failed(MetricsFailure::NotText),
        None => ResponseRecord::failed(MetricsFailure::Encoding),
    }
}

/// Answers with encoded metrics, or with a failure where there are none but the
/// cause of that. There is a cause if and only if there is a failure.
pub fn metrics_response(encoded: Result<Vec<u8>, String>) -> (response: MetricsResponse)
    ensures
        response@ == response_to(
            match encoded {
                Ok(bytes) => Some(bytes@),
                Err(_) => None,
            },
        ),
        (response.cause is Some) == (response.failure is Some),
        encoded is Err ==> optional_text(response.cause) == Some(encoded->Err_0@),
{
    let (failure, cause) = match encoded {
        Ok(bytes) => match text_from_utf8(bytes) {
            Ok(body) => {
                return MetricsResponse {
                    status: 200,
                    content_type: Some(text_format()),
                    body,
                    failure: None,
                    cause: None,
                };
            },
            Err(cause) => (MetricsFailure::NotText, cause),
        },
        Err(cause) => (MetricsFailure::Encoding, cause),
    };
    MetricsResponse {
        status: 500,
        content_type: None,
        body: String::new(),
        failure: Some(failure),
        cause: Some(cause),
    }
}

/// No family is of a kind that the text format cannot write.
pub open spec fn all_typed(families: Seq<MetricFamily>) -> bool {
    forall|i: int| 0 <= i < families.len() ==> !family_untyped(#[trigger] families[i])
}

/// Each family has a name and at least one sample.
pub open spec fn all_filled(families: Seq<MetricFamily>) -> bool {
    forall|i: int| 0 <= i < families.len() ==> family_filled(#[trigger] families[i])
}

/// The answer for gathered families; none where the text format cannot write
/// them.
pub open spec fn response_for(families: Seq<MetricFamily>) -> Option<ResponseRecord> {
    if all_typed(families) {
        Some(response_to(text_encoding(families)))
    } else {
        None
    }
}

/// Answers with gathered families. There is no answer where one of them is
/// untyped, which the text format cannot write. The answer is a success if and
/// only if each family has a name and a sample; else it is that the metrics could
/// not be encoded.
pub fn render_families(families: &Vec<MetricFamily>) -> (response: Option<MetricsResponse>)
    ensures
        response_for(families@) == match response {
            Some(r) => Some(r@),
            None => None,
        },
        (response is None) == !all_typed(families@),
        response is Some && all_filled(families@) ==> response->0.status == 200,
        response is Some && !all_filled(families@) ==> response->0@ == ResponseRecord::failed(
            MetricsFailure::Encoding,
        ),
        response is Some ==> (response->0.cause is Some) == (response->0.failure is Some),
{
    let mut i: usize = 0;
    while i < families.len()
        invariant
            i <= families.len(),
            forall|j: int| 0 <= j < i ==> !family_untyped(#[trigger] families@[j]),
        decreases families.len() - i,
    {
        if is_untyped(&families[i]) {
            assert(!all_typed(families@));
            return None;
        }
        i = i + 1;
    }
    Some(metrics_response(encode_text(families)))
}

/// One of the families shows the counters of a metric, if there are any.
pub open spec fn family_shown(
    families: Seq<MetricFamily>,
    name: Seq<char>,
    series: Map<u64, (Seq<Seq<char>>, u64)>,
) -> bool {
    series.dom() != Set::<u64>::empty() ==> exists|i: int|
        0 <= i < families.len() && shows_series(#[trigger] families[i], name, series)
}

/// One of the families shows the count of a metric without labels.
pub open spec fn count_shown(families: Seq<MetricFamily>, name: Seq<char>, count: u64) -> bool {
    exists|i: int|
        0 <= i < families.len() && shows_count(#[trigger] families[i], name, count)
}

/// The families show all that was counted.
pub open spec fn show_counts(families: Seq<MetricFamily>, metrics: MetricsRecord) -> bool {
    &&& family_shown(families, HTTP_STATUS_TOTAL@, metrics.status)
    &&& family_shown(families, HTTP_STATUS_CLASS_TOTAL@, metrics.class)
    &&& count_shown(families, HTTP_502_TOTAL@, metrics.bad_gateway)
    &&& family_shown(families, UPSTREAM_STATUS_TOTAL@, metrics.upstream)
}

/// What is gathered of the metrics where a registry holds nothing else: a
/// function of what was counted.
pub open spec fn exposition(metrics: MetricsRecord) -> Seq<MetricFamily> {
    gathered_alone(
        status_shape().with_series(metrics.status),
        class_shape().with_series(metrics.class),
        upstream_shape().with_series(metrics.upstream),
        CounterRecord {
            name: HTTP_502_TOTAL@,
            help: HTTP_502_HELP@,
            value: metrics.bad_gateway,
        },
    )
}

/// The response is the answer for families that the registry gathered. If it
/// exposes the metrics, the families show their counts. If it holds nothing
/// else, what was counted determines the families, and the answer is a success.
pub open spec fn answers_from(
    registry: Registry,
    metrics: Metrics,
    response: Option<ResponseRecord>,
) -> bool {
    exists|families: Seq<MetricFamily>|
        {
            &&& #[trigger] may_gather(registry, families)
            &&& response == response_for(families)
            &&& metrics.exposed_by(registry) ==> show_counts(families, metrics@)
            &&& metrics.alone_in(registry) ==> families == exposition(metrics@) && response is Some
                && response->0.status == 200
        }
}

/// Answers a request for the metrics with the current values of all that the
/// registry holds. There is no answer where one of its metrics is untyped.
pub fn metrics_handler(registry: &Registry, metrics: &Metrics) -> (response: Option<
    MetricsResponse,
>)
    requires
        metrics.wf(),
    ensures
        answers_from(
            *registry,
            *metrics,
            match response {
                Some(r) => Some(r@),
                None => None,
            },
        ),
{
    let families = gather_families(
        registry,
        &metrics.http_status_total,
        &metrics.http_status_class_total,
        &metrics.upstream_status_total,
        &metrics.http_502_total,
    );
    render_families(&families)
}

// ---------------------------------------------------------------------------
// Laws
// ---------------------------------------------------------------------------

/// The answer is a success if and only if the metrics were encoded as text. The
/// body is then, byte for byte, what was encoded; else there is none, and the
/// answer says which of the two went wrong.
pub proof fn law_answer_is_what_was_encoded(encoded: Option<Seq<u8>>)
    ensures
        response_to(encoded).status == 200 <==> encoded is Some && valid_utf8(encoded->0),
        response_to(encoded).status == 200 ==> encode_utf8(response_to(encoded).body)
            == encoded->0 && response_to(encoded).content_type == Some(TEXT_MEDIA_TYPE@),
        response_to(encoded).status == 200 <==> response_to(encoded).failure is None,
        response_to(encoded).status != 200 ==> response_to(encoded) == ResponseRecord::failed(
            if encoded is Some {
                MetricsFailure::NotText
            } else {
                MetricsFailure::Encoding
            },
        ),
{
    if encoded is Some && valid_utf8(encoded->0) {
        decode_utf8_encode_utf8(encoded->0);
    }
}

/// The names of the metrics differ.
proof fn lemma_names_differ()
    ensures
        seq![
            HTTP_STATUS_TOTAL@,
            HTTP_STATUS_CLASS_TOTAL@,
            HTTP_502_TOTAL@,
            UPSTREAM_STATUS_TOTAL@,
        ].no_duplicates(),
{
    reveal_strlit("nginx_http_status_total");
    reveal_strlit("nginx_http_status_class_total");
    reveal_strlit("nginx_http_502_total");
    reveal_strlit("nginx_upstream_status_total");
    assert(HTTP_STATUS_TOTAL@.len() == 23);
    assert(HTTP_STATUS_CLASS_TOTAL@.len() == 29);
    assert(HTTP_502_TOTAL@.len() == 20);
    assert(UPSTREAM_STATUS_TOTAL@.len() == 27);
}

/// A registry that holds nothing takes the metrics, and then holds these four
/// and no others.
pub proof fn law_new_registry_takes_the_metrics()
    ensures
        registration(RegistryRecord::empty()).0 is Ok,
        registration(RegistryRecord::empty()).1.ids == metric_ids(),
        registration(RegistryRecord::empty()).1.collectors == metric_ids(),
        metric_ids().len() == 4,
{
    lemma_names_differ();
    lemma_metric_ids();
    let names = seq![
        HTTP_STATUS_TOTAL@,
        HTTP_STATUS_CLASS_TOTAL@,
        HTTP_502_TOTAL@,
        UPSTREAM_STATUS_TOTAL@,
    ];
    assert(names[0] != names[1] && names[0] != names[2] && names[0] != names[3]);
    assert(names[1] != names[2] && names[1] != names[3] && names[2] != names[3]);
    assert(registration(RegistryRecord::empty()).1.ids =~= metric_ids());
    assert(registration(RegistryRecord::empty()).1.collectors =~= metric_ids());
}

/// The answer is a function of what was counted, where a registry holds the
/// metrics and nothing else. So a second request, with nothing counted in
/// between, is answered as the first; and so is one in another process that has
/// counted the same.
pub proof fn law_same_counts_same_answer(
    registry: Registry,
    metrics: Metrics,
    response: Option<ResponseRecord>,
    other_registry: Registry,
    other_metrics: Metrics,
    other_response: Option<ResponseRecord>,
)
    requires
        metrics.alone_in(registry),
        other_metrics.alone_in(other_registry),
        metrics@ == other_metrics@,
        answers_from(registry, metrics, response),
        answers_from(other_registry, other_metrics, other_response),
    ensures
        response == other_response,
{
}

/// A registry that took the metrics does not take them again, and stays as it
/// is.
pub proof fn law_metrics_are_registered_once(registry: RegistryRecord)
    requires
        registration(registry).0 is Ok,
    ensures
        registration(registration(registry).1) == (
            Err::<(), RegisterError>(RegisterError::HttpStatusTotal),
            registration(registry).1,
        ),
{
}

/// A text is a number in decimal: digits only, which stand for the number, and no
/// zero in front of others.
pub open spec fn spells(text: Seq<char>, n: nat) -> bool {
    &&& text.len() > 0
    &&& forall|i: int| 0 <= i < text.len() ==> '0' <= #[trigger] text[i] <= '9'
    &&& digits_value(text) == n
    &&& text.len() > 1 ==> text[0] != '0'
}

/// What is written in decimal spells its number.
proof fn lemma_decimal_spells(n: nat)
    ensures
        spells(decimal(n), n),
{
    law_decimal_reads_back(n);
    let text = decimal(n);
    assert forall|i: int| 0 <= i < text.len() implies '0' <= #[trigger] text[i] <= '9' by {
        assert(is_digit(text[i]));
    }
    if n > 0 {
        law_decimal_goes_by_digits(n, 0, '0');
    }
}

/// A line counts under its own status and the class of that: the label of the
/// status spells the status, and the label of the class is the hundreds of the
/// status with two letters `x` behind them. A line without a status counts under
/// none.
pub proof fn law_status_labels_name_the_status(record: AccessRecord)
    ensures
        record.status is None <==> record.status_entry() is None,
        record.status is None <==> record.class_entry() is None,
        record.status is Some ==> ({
            let status = record.status->0;
            let label = record.status_entry()->0;
            let class = record.class_entry()->0;
            &&& label.len() == 1
            &&& spells(label[0], status as nat)
            &&& class.len() == 1
            &&& class[0].len() > 2
            &&& class[0].skip(class[0].len() - 2) == seq!['x', 'x']
            &&& spells(class[0].take(class[0].len() - 2), (status / 100) as nat)
        }),
{
    if let Some(status) = record.status {
        lemma_decimal_spells(status as nat);
        lemma_decimal_spells((status / 100) as nat);
        reveal_strlit("xx");
        let hundreds = decimal((status / 100) as nat);
        let class = hundreds + "xx"@;
        assert(class.skip(class.len() - 2) =~= seq!['x', 'x']);
        assert(class.take(class.len() - 2) =~= hundreds);
    }
}

/// A line counts under the address of its own upstream, or `<none>`, and the
/// status of that upstream, whatever the client got. Without a status of an
/// upstream it counts under none.
pub proof fn law_upstream_labels_name_the_upstream(record: AccessRecord)
    ensures
        record.upstream_status is None <==> record.upstream_entry() is None,
        record.upstream_status is Some ==> ({
            let labels = record.upstream_entry()->0;
            &&& labels.len() == 2
            &&& record.upstream_addr is Some ==> labels[0] == record.upstream_addr->0
            &&& record.upstream_addr is None ==> labels[0] == "<none>"@
            &&& spells(labels[1], record.upstream_status->0 as nat)
        }),
{
    if let Some(status) = record.upstream_status {
        lemma_decimal_spells(status as nat);
    }
}

/// The labels of the upstream depend on the upstream alone: lines with the same
/// upstream and status of it have the same, and lines with another status or
/// another address have others.
pub proof fn law_upstream_labels_depend_on_the_upstream(a: AccessRecord, b: AccessRecord)
    requires
        a.upstream_status is Some,
        b.upstream_status is Some,
    ensures
        a.upstream_addr == b.upstream_addr && a.upstream_status == b.upstream_status
            ==> a.upstream_entry() == b.upstream_entry(),
        a.upstream_status != b.upstream_status ==> a.upstream_entry() != b.upstream_entry(),
        a.upstream_addr is Some && b.upstream_addr is Some && a.upstream_addr != b.upstream_addr
            ==> a.upstream_entry() != b.upstream_entry(),
{
    law_upstream_labels_name_the_upstream(a);
    law_upstream_labels_name_the_upstream(b);
}

/// What is observed of a line is its duration, under the address of its upstream
/// or `<none>`, whatever else the line says. A line without a duration has
/// nothing to be observed.
pub proof fn law_duration_is_observed(record: AccessRecord)
    ensures
        record.request_time is None <==> duration_of(record) is None,
        record.request_time is Some && record.upstream_addr is Some ==> duration_of(record) == Some(
            (record.upstream_addr->0, record.request_time->0),
        ),
        record.request_time is Some && record.upstream_addr is None ==> duration_of(record) == Some(
            ("<none>"@, record.request_time->0),
        ),
{
}

/// The answer for gathered families. There is none if and only if one of them is
/// untyped. It is a success if and only if the families could be encoded as text:
/// its body is then that text, byte for byte, of the media type of the text
/// format. Else it is a failure without a body.
pub proof fn law_answer_for_families(families: Seq<MetricFamily>)
    ensures
        response_for(families) is None <==> exists|i: int|
            0 <= i < families.len() && family_untyped(#[trigger] families[i]),
        response_for(families) is Some ==> ({
            let answer = response_for(families)->0;
            let encoded = text_encoding(families);
            let text = encoded is Some && valid_utf8(encoded->0);
            &&& text ==> answer.status == 200 && encode_utf8(answer.body) == encoded->0
                && answer.content_type == Some("text/plain; version=0.0.4"@) && answer.failure
                is None
            &&& !text ==> answer.status == 500 && answer.body.len() == 0 && answer.content_type
                is None && answer.failure is Some
            &&& encoded is None ==> answer.failure == Some(MetricsFailure::Encoding)
            &&& encoded is Some && !text ==> answer.failure == Some(MetricsFailure::NotText)
        }),
{
    if text_encoding(families) is Some && valid_utf8(text_encoding(families)->0) {
        decode_utf8_encode_utf8(text_encoding(families)->0);
    }
}

/// A request for the metrics is answered for families that show each metric under
/// its name, with all that it has counted.
pub proof fn law_answer_shows_each_metric(
    registry: Registry,
    metrics: Metrics,
    response: Option<ResponseRecord>,
)
    requires
        metrics.exposed_by(registry),
        answers_from(registry, metrics, response),
    ensures
        exists|families: Seq<MetricFamily>|
            {
                &&& response == #[trigger] response_for(families)
                &&& may_gather(registry, families)
                &&& metrics@.status.dom() != Set::<u64>::empty() ==> exists|i: int|
                    0 <= i < families.len() && shows_series(
                        #[trigger] families[i],
                        "nginx_http_status_total"@,
                        metrics@.status,
                    )
                &&& metrics@.class.dom() != Set::<u64>::empty() ==> exists|i: int|
                    0 <= i < families.len() && shows_series(
                        #[trigger] families[i],
                        "nginx_http_status_class_total"@,
                        metrics@.class,
                    )
                &&& metrics@.upstream.dom() != Set::<u64>::empty() ==> exists|i: int|
                    0 <= i < families.len() && shows_series(
                        #[trigger] families[i],
                        "nginx_upstream_status_total"@,
                        metrics@.upstream,
                    )
                &&& exists|i: int|
                    0 <= i < families.len() && shows_count(
                        #[trigger] families[i],
                        "nginx_http_502_total"@,
                        metrics@.bad_gateway,
                    )
            },
{
}

/// Registering stops at the first metric that the registry does not take, in the
/// order by status, by class, of bad gateways and by upstream, and says which it
/// was. A registry takes a metric whose identifier is free where its dimensions
/// are those that it knows of the name, if it knows any.
pub proof fn law_registration_names_what_is_refused(registry: RegistryRecord)
    ensures
        ({
            let result = registration(registry).0;
            let free = |name: Seq<char>, dims: u64|
                !registry.ids.contains(metric_id(name)) && !registry.collectors.contains(
                    metric_id(name),
                ) && (registry.dims.dom().contains(name) ==> registry.dims[name] == dims);
            let status = free(
                "nginx_http_status_total"@,
                metric_dims(HTTP_STATUS_HELP@, seq!["status"@]),
            );
            let class = free(
                "nginx_http_status_class_total"@,
                metric_dims(HTTP_STATUS_CLASS_HELP@, seq!["class"@]),
            );
            let bad_gateway = free(
                "nginx_http_502_total"@,
                metric_dims(HTTP_502_HELP@, Seq::empty()),
            );
            let upstream = free(
                "nginx_upstream_status_total"@,
                metric_dims(UPSTREAM_STATUS_HELP@, seq!["upstream_addr"@, "status"@]),
            );
            &&& !status ==> result == Err::<(), RegisterError>(RegisterError::HttpStatusTotal)
            &&& status && !class ==> result == Err::<(), RegisterError>(
                RegisterError::HttpStatusClassTotal,
            )
            &&& status && class && !bad_gateway ==> result == Err::<(), RegisterError>(
                RegisterError::Http502Total,
            )
            &&& status && class && bad_gateway && !upstream ==> result == Err::<
                (),
                RegisterError,
            >(RegisterError::UpstreamStatusTotal)
            &&& status && class && bad_gateway && upstream ==> result == Ok::<(), RegisterError>(
                (),
            )
        }),
{
    lemma_metric_ids();
    lemma_names_differ();
    let names = seq![
        HTTP_STATUS_TOTAL@,
        HTTP_STATUS_CLASS_TOTAL@,
        HTTP_502_TOTAL@,
        UPSTREAM_STATUS_TOTAL@,
    ];
    assert(names[0] != names[1] && names[0] != names[2] && names[0] != names[3]);
    assert(names[1] != names[2] && names[1] != names[3] && names[2] != names[3]);
}

/// A sample and an answer stand for what they hold.
pub proof fn law_samples_and_answers_hold_their_content(
    sample: DurationSample,
    response: MetricsResponse,
)
    ensures
        sample_of(None) is None,
        sample_of(Some(sample)) == Some((sample.upstream_addr@, sample.request_time@)),
        response@.status == response.status,
        response@.body == response.body@,
        response@.failure == response.failure,
        response.content_type is None <==> response@.content_type is None,
        response.content_type is Some ==> response@.content_type == Some(
            response.content_type->0@,
        ),
{
}

} // verus!
