//! What happens with each line of a log.
use prometheus::proto::MetricFamily;
use prometheus::Registry;
use vstd::prelude::*;

use crate::health::UnixTime;
use crate::log_state::{lines_of, replayed, LogEntry, LogKind, LogRecord, LogState};
use crate::metrics_layer::{
    answers_from, duration_of, law_duration_is_observed, record_access, recorded, response_for,
    sample_of, show_counts, DurationSample, Metrics, MetricsRecord, ResponseRecord,
};
use crate::parser::{access_record, parse_access_line, AccessRecord};
use crate::tally::{
    class_key, count_after, count_under, counts_upstream, law_one_line_moves_its_counters,
    recorded_all, status_key,
};

verus! {

/// Handles a line of a log that was seen at the time `now`: keeps it and, if it
/// is of the access log, counts it. Gives the duration to be observed, if the
/// line has one. A registry that exposes the metrics goes on to do so.
pub fn handle_log_line(
    line: &str,
    kind: LogKind,
    state: &mut LogState,
    metrics: &mut Metrics,
    now: UnixTime,
) -> (sample: Option<DurationSample>)
    requires
        old(state)@.wf(),
        old(state)@.of(kind).seen < u64::MAX,
        old(metrics).wf(),
    ensures
        final(state)@.wf(),
        final(state)@ == old(state)@.with_line(kind, line@, now@),
        final(metrics).wf(),
        final(metrics)@ == metrics_with_line(old(metrics)@, kind, line@),
        forall|registry: Registry|
            old(metrics).exposed_by(registry) ==> #[trigger] final(metrics).exposed_by(registry),
        sample_of(sample) == sample_with_line(kind, line@),
{
    state.record_line(line, kind, now);
    match kind {
        LogKind::Access => {
            let parsed = parse_access_line(line);
            record_access(metrics, &parsed)
        },
        LogKind::Error => None,
    }
}

/// What is to be observed of one more line of a log.
pub open spec fn sample_with_line(kind: LogKind, line: Seq<char>) -> Option<
    (Seq<char>, Seq<char>),
> {
    match kind {
        LogKind::Access => duration_of(access_record(line)),
        LogKind::Error => None,
    }
}

/// What the metrics have counted after one more line of a log.
pub open spec fn metrics_with_line(
    metrics: MetricsRecord,
    kind: LogKind,
    line: Seq<char>,
) -> MetricsRecord {
    match kind {
        LogKind::Access => recorded(metrics, access_record(line)),
        LogKind::Error => metrics,
    }
}

// ---------------------------------------------------------------------------
// Laws
// ---------------------------------------------------------------------------

/// What is kept and counted after a history of lines was handled.
pub open spec fn handled(history: Seq<LogEntry>) -> (LogRecord, MetricsRecord)
    decreases history.len(),
{
    if history.len() == 0 {
        (LogRecord::empty(), MetricsRecord::empty())
    } else {
        let (log, metrics) = handled(history.drop_last());
        let entry = history.last();
        (
            log.with_line(entry.kind, entry.line, entry.time),
            metrics_with_line(metrics, entry.kind, entry.line),
        )
    }
}

/// What some lines of the access log say.
pub open spec fn access_records(lines: Seq<Seq<char>>) -> Seq<AccessRecord> {
    lines.map_values(|line: Seq<char>| access_record(line))
}

/// After any history of lines, the metrics have counted the lines of the access
/// log, in order, and nothing of the error log; and what is kept of the logs
/// does not depend on what was counted.
pub proof fn law_metrics_count_the_access_log(history: Seq<LogEntry>)
    ensures
        handled(history).0 == replayed(history),
        handled(history).1 == recorded_all(access_records(lines_of(history, LogKind::Access))),
    decreases history.len(),
{
    if history.len() > 0 {
        let earlier = history.drop_last();
        law_metrics_count_the_access_log(earlier);
        let before = lines_of(earlier, LogKind::Access);
        let after = lines_of(history, LogKind::Access);
        if history.last().kind == LogKind::Access {
            assert(access_records(after).drop_last() =~= access_records(before));
            assert(access_records(after).last() == access_record(history.last().line));
        }
    } else {
        assert(access_records(lines_of(history, LogKind::Access)) =~= Seq::empty());
    }
}

/// What is exposed is what was counted: after any history of lines, a request for
/// the metrics is answered for families that show the counts of the lines of the
/// access log.
pub proof fn law_answer_shows_the_access_log(
    history: Seq<LogEntry>,
    registry: Registry,
    metrics: Metrics,
    response: Option<ResponseRecord>,
)
    requires
        metrics@ == handled(history).1,
        metrics.exposed_by(registry),
        answers_from(registry, metrics, response),
    ensures
        exists|families: Seq<MetricFamily>|
            #![trigger response_for(families)]
            response == response_for(families) && show_counts(
                families,
                recorded_all(access_records(lines_of(history, LogKind::Access))),
            ),
{
    law_metrics_count_the_access_log(history);
}

/// One line of a log moves the counters of what it says if it is of the access
/// log: that of its status, of its class, of bad gateways, and of its upstream.
/// A line of the error log moves none.
pub proof fn law_line_moves_the_counters(
    metrics: MetricsRecord,
    kind: LogKind,
    line: Seq<char>,
    status: u16,
    key: u64,
)
    ensures
        ({
            let after = metrics_with_line(metrics, kind, line);
            let said = access_record(line);
            let access = kind == LogKind::Access;
            &&& count_under(after.status, status_key(status)) == count_after(
                count_under(metrics.status, status_key(status)),
                access && said.status == Some(status),
            )
            &&& count_under(after.class, class_key(status)) == count_after(
                count_under(metrics.class, class_key(status)),
                access && said.status is Some && said.status->0 / 100 == status / 100,
            )
            &&& after.bad_gateway == count_after(
                metrics.bad_gateway as nat,
                access && said.status == Some(502u16),
            )
            &&& count_under(after.upstream, key) == count_after(
                count_under(metrics.upstream, key),
                access && counts_upstream(said, key),
            )
            &&& !access ==> after == metrics
        }),
{
    law_one_line_moves_its_counters(metrics, access_record(line), status, key);
}

/// Of a line of the access log its duration is observed, if it has one, under the
/// address of its upstream, or `<none>`. Of a line of the error log nothing is.
pub proof fn law_line_gives_its_duration(kind: LogKind, line: Seq<char>)
    ensures
        kind == LogKind::Error ==> sample_with_line(kind, line) is None,
        kind == LogKind::Access ==> ({
            let said = access_record(line);
            &&& said.request_time is None ==> sample_with_line(kind, line) is None
            &&& said.request_time is Some && said.upstream_addr is Some ==> sample_with_line(
                kind,
                line,
            ) == Some((said.upstream_addr->0, said.request_time->0))
            &&& said.request_time is Some && said.upstream_addr is None ==> sample_with_line(
                kind,
                line,
            ) == Some(("<none>"@, said.request_time->0))
        }),
{
    law_duration_is_observed(access_record(line));
}

} // verus!
