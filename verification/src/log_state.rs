//! What is kept in memory of the two logs.
use std::collections::VecDeque;
use vstd::prelude::*;

use crate::health::{
    build_file_health, is_health_of, law_report_counts_whole_seconds, seconds_between, FileHealth,
    HealthResponse, UnixTime,
};
use crate::number::decimal;
use crate::text::{joined, texts};
use crate::ui::{
    escaped, latest, law_page_holds_both_logs, limit_options, render_ui_page, shown_limit,
    tail_as_string, ui_limit, ui_page, MAX_LINES_PER_LOG, PAGE_ACCESS, PAGE_END, PAGE_ERROR,
    PAGE_HEAD, PAGE_LINES,
};

verus! {

/// One of the two logs.
#[derive(Debug, Clone, Copy, PartialEq, Eq, Structural)]
pub enum LogKind {
    Access,
    Error,
}

/// The name of a log.
pub open spec fn kind_name(kind: LogKind) -> Seq<char> {
    match kind {
        LogKind::Access => "access.log"@,
        LogKind::Error => "error.log"@,
    }
}

/// The name of a log, for messages.
pub fn log_kind_name(kind: LogKind) -> (name: &'static str)
    ensures
        name@ == kind_name(kind),
{
    match kind {
        LogKind::Access => "access.log",
        LogKind::Error => "error.log",
    }
}

/// What is kept of one log.
struct FileLog {
    lines: VecDeque<String>,
    lines_seen: u64,
    last_update: Option<UnixTime>,
}

/// What is kept of both logs: the latest lines, for the page, and what the
/// health report needs.
pub struct LogState {
    access: FileLog,
    error: FileLog,
}

/// The mathematical content of what is kept of one log.
#[verifier::ext_equal]
pub struct FileRecord {
    /// The latest lines, the newest last.
    pub lines: Seq<Seq<char>>,
    /// How many lines were ever seen.
    pub seen: nat,
    /// When the last line was seen, in nanoseconds since the Unix epoch.
    pub last: Option<int>,
}

/// The mathematical content of a [`LogState`].
#[verifier::ext_equal]
pub struct LogRecord {
    pub access: FileRecord,
    pub error: FileRecord,
}

impl View for FileLog {
    type V = FileRecord;

    closed spec fn view(&self) -> FileRecord {
        FileRecord {
            lines: texts(self.lines@),
            seen: self.lines_seen as nat,
            last: match self.last_update {
                Some(t) => Some(t@),
                None => None,
            },
        }
    }
}

impl View for LogState {
    type V = LogRecord;

    closed spec fn view(&self) -> LogRecord {
        LogRecord { access: self.access@, error: self.error@ }
    }
}

impl FileRecord {
    /// Nothing was seen yet.
    pub open spec fn empty() -> FileRecord {
        FileRecord { lines: Seq::empty(), seen: 0, last: None }
    }

    /// The log keeps as many of its lines as there is room for.
    pub open spec fn wf(self) -> bool {
        &&& self.lines.len() == if self.seen < MAX_LINES_PER_LOG {
            self.seen
        } else {
            MAX_LINES_PER_LOG as nat
        }
        &&& self.seen <= u64::MAX
        &&& self.last is Some <==> self.seen > 0
    }

    /// The log after one more line.
    pub open spec fn with_line(self, line: Seq<char>, now: int) -> FileRecord {
        FileRecord {
            lines: latest(self.lines.push(line), MAX_LINES_PER_LOG as nat),
            seen: self.seen + 1,
            last: Some(now),
        }
    }
}

impl LogRecord {
    /// Nothing was seen yet.
    pub open spec fn empty() -> LogRecord {
        LogRecord { access: FileRecord::empty(), error: FileRecord::empty() }
    }

    /// Both logs are well-formed.
    pub open spec fn wf(self) -> bool {
        self.access.wf() && self.error.wf()
    }

    /// One of the two logs.
    pub open spec fn of(self, kind: LogKind) -> FileRecord {
        match kind {
            LogKind::Access => self.access,
            LogKind::Error => self.error,
        }
    }

    /// Both logs after one more line in one of them.
    pub open spec fn with_line(self, kind: LogKind, line: Seq<char>, now: int) -> LogRecord {
        match kind {
            LogKind::Access => LogRecord { access: self.access.with_line(line, now), ..self },
            LogKind::Error => LogRecord { error: self.error.with_line(line, now), ..self },
        }
    }
}

impl FileLog {
    fn new() -> (log: FileLog)
        ensures
            log@ == FileRecord::empty(),
    {
        let log = FileLog { lines: VecDeque::new(), lines_seen: 0, last_update: None };
        assert(log@ =~= FileRecord::empty());
        log
    }

    /// Keeps a line, and drops the oldest one where there are too many.
    fn append(&mut self, line: &str, now: UnixTime)
        requires
            old(self)@.wf(),
            old(self)@.seen < u64::MAX,
        ensures
            final(self)@ == old(self)@.with_line(line@, now@),
            final(self)@.wf(),
    {
        let ghost before = texts(self.lines@);
        self.lines.push_back(line.to_string());
        assert(texts(self.lines@) =~= before.push(line@));
        if self.lines.len() > MAX_LINES_PER_LOG {
            let ghost all = self.lines@;
            self.lines.pop_front();
            assert(texts(self.lines@) =~= texts(all).skip(1));
        }
        assert(texts(self.lines@) =~= latest(before.push(line@), MAX_LINES_PER_LOG as nat));
        self.lines_seen = self.lines_seen + 1;
        self.last_update = Some(now);
    }
}

impl Default for LogState {
    /// Nothing was seen yet.
    fn default() -> (state: LogState)
        ensures
            state@ == LogRecord::empty(),
            state@.wf(),
    {
        let state = LogState { access: FileLog::new(), error: FileLog::new() };
        assert(state@ =~= LogRecord::empty());
        state
    }
}

impl LogState {
    /// Tells whether one more line of a log can be counted.
    pub fn has_room(&self, kind: LogKind) -> (room: bool)
        ensures
            room == (self@.of(kind).seen < u64::MAX),
    {
        match kind {
            LogKind::Access => self.access.lines_seen < u64::MAX,
            LogKind::Error => self.error.lines_seen < u64::MAX,
        }
    }

    /// Keeps a line of a log that was seen at the time `now`.
    pub fn record_line(&mut self, line: &str, kind: LogKind, now: UnixTime)
        requires
            old(self)@.wf(),
            old(self)@.of(kind).seen < u64::MAX,
        ensures
            final(self)@ == old(self)@.with_line(kind, line@, now@),
            final(self)@.wf(),
    {
        match kind {
            LogKind::Access => self.access.append(line, now),
            LogKind::Error => self.error.append(line, now),
        }
    }
}

/// The page with the latest lines of both logs, as many as are asked for.
pub open spec fn page_of(log: LogRecord, asked: Option<usize>) -> Seq<char> {
    let limit = shown_limit(asked) as nat;
    ui_page(
        limit,
        joined(latest(log.access.lines, limit)),
        joined(latest(log.error.lines, limit)),
    )
}

/// Shows the latest lines of both logs, as many as are asked for.
pub fn ui_handler(state: &LogState, limit: Option<usize>) -> (page: String)
    ensures
        page@ == page_of(state@, limit),
{
    let limit: usize = ui_limit(limit);
    let access_text = tail_as_string(&state.access.lines, limit);
    let error_text = tail_as_string(&state.error.lines, limit);
    render_ui_page(limit, access_text.as_str(), error_text.as_str())
}

/// Reports on both logs at the time `now`.
pub fn healthz_handler(state: &LogState, now: UnixTime) -> (report: HealthResponse)
    ensures
        is_health_of(report.access_log, state@.access.last, state@.access.seen, now@),
        is_health_of(report.error_log, state@.error.last, state@.error.seen, now@),
{
    HealthResponse {
        access_log: build_file_health(state.access.last_update, state.access.lines_seen, now),
        error_log: build_file_health(state.error.last_update, state.error.lines_seen, now),
    }
}

// ---------------------------------------------------------------------------
// Laws
// ---------------------------------------------------------------------------

/// A line of one of the logs, and when it was seen.
pub struct LogEntry {
    pub kind: LogKind,
    pub line: Seq<char>,
    pub time: int,
}

/// What is kept after a history of lines.
pub open spec fn replayed(history: Seq<LogEntry>) -> LogRecord
    decreases history.len(),
{
    if history.len() == 0 {
        LogRecord::empty()
    } else {
        let entry = history.last();
        replayed(history.drop_last()).with_line(entry.kind, entry.line, entry.time)
    }
}

/// The lines of one log in a history.
pub open spec fn lines_of(history: Seq<LogEntry>, kind: LogKind) -> Seq<Seq<char>>
    decreases history.len(),
{
    if history.len() == 0 {
        Seq::empty()
    } else {
        let earlier = lines_of(history.drop_last(), kind);
        if history.last().kind == kind {
            earlier.push(history.last().line)
        } else {
            earlier
        }
    }
}

/// After any history of lines, each log keeps exactly its latest lines, as many
/// as there is room for, and has counted them all.
pub proof fn law_latest_lines_are_kept(history: Seq<LogEntry>, kind: LogKind)
    ensures
        replayed(history).of(kind).lines == latest(
            lines_of(history, kind),
            MAX_LINES_PER_LOG as nat,
        ),
        replayed(history).of(kind).seen == lines_of(history, kind).len(),
    decreases history.len(),
{
    if history.len() > 0 {
        law_latest_lines_are_kept(history.drop_last(), kind);
        let earlier = lines_of(history.drop_last(), kind);
        let line = history.last().line;
        let max = MAX_LINES_PER_LOG as nat;
        assert(latest(latest(earlier, max).push(line), max) =~= latest(earlier.push(line), max));
    }
}

/// A line of one log leaves the other as it is.
pub proof fn law_logs_are_independent(
    log: LogRecord,
    kind: LogKind,
    other: LogKind,
    line: Seq<char>,
    now: int,
)
    requires
        kind != other,
    ensures
        log.with_line(kind, line, now).of(other) == log.of(other),
{
}

/// A well-formed state stays well-formed with each line, as long as its lines
/// can be counted.
pub proof fn law_room_is_never_exceeded(
    log: LogRecord,
    kind: LogKind,
    line: Seq<char>,
    now: int,
)
    requires
        log.wf(),
        log.of(kind).seen < u64::MAX,
    ensures
        log.with_line(kind, line, now).wf(),
        log.with_line(kind, line, now).of(kind).lines.len() <= MAX_LINES_PER_LOG,
{
}

/// The report on a log tells when its last line was seen, and counts it.
pub proof fn law_report_follows_last_line(
    log: LogRecord,
    kind: LogKind,
    line: Seq<char>,
    time: int,
    health: FileHealth,
    now: int,
)
    requires
        is_health_of(
            health,
            log.with_line(kind, line, time).of(kind).last,
            log.with_line(kind, line, time).of(kind).seen,
            now,
        ),
    ensures
        health.lines_seen == log.of(kind).seen + 1,
        health.last_update_unix is Some,
        health.last_update_unix->0 == seconds_between(0, time),
        health.seconds_since_last_update is Some,
        health.seconds_since_last_update->0 == seconds_between(time, now),
{
}

/// The page with a limit shows the latest lines of all that were ever seen: as
/// the limit never exceeds what a log keeps, no line that the page should show
/// has been dropped.
pub proof fn law_page_shows_latest_lines(
    history: Seq<LogEntry>,
    kind: LogKind,
    asked: Option<usize>,
)
    ensures
        latest(replayed(history).of(kind).lines, shown_limit(asked) as nat) == latest(
            lines_of(history, kind),
            shown_limit(asked) as nat,
        ),
{
    law_latest_lines_are_kept(history, kind);
    let all = lines_of(history, kind);
    assert(latest(latest(all, MAX_LINES_PER_LOG as nat), shown_limit(asked) as nat) =~= latest(
        all,
        shown_limit(asked) as nat,
    ));
}

/// When the lines of one log in a history were seen.
pub open spec fn times_of(history: Seq<LogEntry>, kind: LogKind) -> Seq<int>
    decreases history.len(),
{
    if history.len() == 0 {
        Seq::empty()
    } else {
        let earlier = times_of(history.drop_last(), kind);
        if history.last().kind == kind {
            earlier.push(history.last().time)
        } else {
            earlier
        }
    }
}

/// After any history of lines, each log knows when its last line was seen, if
/// there was one, and holds two thousand lines, or all where there were fewer.
pub proof fn law_last_line_is_remembered(history: Seq<LogEntry>, kind: LogKind)
    ensures
        times_of(history, kind).len() == lines_of(history, kind).len(),
        lines_of(history, kind).len() == 0 ==> replayed(history).of(kind).last is None,
        lines_of(history, kind).len() > 0 ==> replayed(history).of(kind).last == Some(
            times_of(history, kind).last(),
        ),
        lines_of(history, kind).len() <= 2000 ==> replayed(history).of(kind).lines == lines_of(
            history,
            kind,
        ),
        lines_of(history, kind).len() > 2000 ==> replayed(history).of(kind).lines == lines_of(
            history,
            kind,
        ).skip(lines_of(history, kind).len() - 2000),
        replayed(history).wf() || lines_of(history, LogKind::Access).len() > u64::MAX || lines_of(
            history,
            LogKind::Error,
        ).len() > u64::MAX,
    decreases history.len(),
{
    law_latest_lines_are_kept(history, LogKind::Access);
    law_latest_lines_are_kept(history, LogKind::Error);
    if history.len() > 0 {
        law_last_line_is_remembered(history.drop_last(), kind);
        law_last_line_is_remembered(history.drop_last(), LogKind::Access);
        law_last_line_is_remembered(history.drop_last(), LogKind::Error);
    }
}

/// The report after any history of lines: it counts the lines of each log, and
/// tells the whole seconds since the epoch of the last one, and its age.
pub proof fn law_report_after_history(
    history: Seq<LogEntry>,
    kind: LogKind,
    health: FileHealth,
    now: int,
)
    requires
        is_health_of(
            health,
            replayed(history).of(kind).last,
            replayed(history).of(kind).seen,
            now,
        ),
    ensures
        health.lines_seen == lines_of(history, kind).len(),
        lines_of(history, kind).len() == 0 <==> health.last_update_unix is None,
        lines_of(history, kind).len() == 0 <==> health.seconds_since_last_update is None,
        lines_of(history, kind).len() > 0 ==> ({
            let time = times_of(history, kind).last();
            let at = health.last_update_unix->0 as int;
            let age = health.seconds_since_last_update->0 as int;
            &&& time >= 0 ==> at * 1_000_000_000 <= time < (at + 1) * 1_000_000_000
            &&& time < 0 ==> at == 0
            &&& now >= time ==> age * 1_000_000_000 <= now - time < (age + 1) * 1_000_000_000
            &&& now < time ==> age == 0
        }),
{
    law_latest_lines_are_kept(history, kind);
    law_last_line_is_remembered(history, kind);
    law_report_counts_whole_seconds(
        health,
        replayed(history).of(kind).last,
        replayed(history).of(kind).seen,
        now,
    );
}

/// Whichever limit is asked for, the newest line of a log is the last that is
/// shown of it, and ends the text that the page shows.
pub proof fn law_page_shows_the_newest_line(
    history: Seq<LogEntry>,
    asked: Option<usize>,
    kind: LogKind,
)
    requires
        lines_of(history, kind).len() > 0,
    ensures
        ({
            let shown = latest(replayed(history).of(kind).lines, shown_limit(asked) as nat);
            &&& shown.len() > 0
            &&& shown.last() == lines_of(history, kind).last()
            &&& joined(shown).len() >= shown.last().len()
            &&& joined(shown).skip(joined(shown).len() - shown.last().len()) == shown.last()
        }),
{
    law_page_shows_latest_lines(history, kind, asked);
    let shown = latest(replayed(history).of(kind).lines, shown_limit(asked) as nat);
    let text = joined(shown);
    assert(text.skip(text.len() - shown.last().len()) =~= shown.last());
}

/// After any history of lines, the page holds in each box the last lines of its
/// log, of all that were ever seen: as many as are asked for, but at least one and
/// at most two thousand, and fifty where nothing is asked for. They stand in their
/// order, a line feed between each two, and escaped.
pub proof fn law_page_after_history(history: Seq<LogEntry>, asked: Option<usize>, limit: nat)
    requires
        asked is None ==> limit == 50,
        asked is Some && asked->0 < 1 ==> limit == 1,
        asked is Some && 1 <= asked->0 <= 2000 ==> limit == asked->0,
        asked is Some && asked->0 > 2000 ==> limit == 2000,
    ensures
        ({
            let all_access = lines_of(history, LogKind::Access);
            let all_error = lines_of(history, LogKind::Error);
            let access = if all_access.len() <= limit {
                all_access
            } else {
                all_access.skip(all_access.len() - limit)
            };
            let error = if all_error.len() <= limit {
                all_error
            } else {
                all_error.skip(all_error.len() - limit)
            };
            page_of(replayed(history), asked) == (PAGE_HEAD@ + limit_options(limit))
                + (PAGE_ACCESS@ + decimal(limit) + PAGE_LINES@ + escaped(joined(access)))
                + (PAGE_ERROR@ + decimal(limit) + PAGE_LINES@ + escaped(joined(error))
                + PAGE_END@)
        }),
{
    law_page_shows_latest_lines(history, LogKind::Access, asked);
    law_page_shows_latest_lines(history, LogKind::Error, asked);
    law_page_holds_both_logs(
        limit,
        joined(latest(lines_of(history, LogKind::Access), limit)),
        joined(latest(lines_of(history, LogKind::Error), limit)),
    );
}

} // verus!
