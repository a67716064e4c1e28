//! The health report: when each log was last written to, and how much.
use vstd::prelude::*;

verus! {

/// The nanoseconds of a second.
pub const NANOS_PER_SEC: u32 = 1_000_000_000;

/// A point in time, on the scale of the system's clock.
#[derive(Debug, Clone, Copy)]
pub struct UnixTime {
    secs: i64,
    nanos: u32,
}

impl View for UnixTime {
    type V = int;

    /// The nanoseconds since the Unix epoch, negative before it.
    closed spec fn view(&self) -> int {
        self.secs * NANOS_PER_SEC + self.nanos
    }
}

impl UnixTime {
    #[verifier::type_invariant]
    closed spec fn in_range(self) -> bool {
        self.nanos < NANOS_PER_SEC
    }

    /// The time so many seconds and nanoseconds after the epoch. There is none
    /// where the seconds do not fit in 63 bits or the nanoseconds make a second.
    pub fn after_epoch(secs: u64, nanos: u32) -> (time: Option<UnixTime>)
        ensures
            time is Some <==> secs <= i64::MAX && nanos < NANOS_PER_SEC,
            time matches Some(t) ==> t@ == secs * NANOS_PER_SEC + nanos,
    {
        if secs > 0x7fff_ffff_ffff_ffff || nanos >= NANOS_PER_SEC {
            return None;
        }
        Some(UnixTime { secs: secs as i64, nanos })
    }

    /// The time so many seconds and nanoseconds before the epoch. There is none
    /// where it is more than 2^63 seconds before it or the nanoseconds make a
    /// second.
    pub fn before_epoch(secs: u64, nanos: u32) -> (time: Option<UnixTime>)
        ensures
            time is Some <==> nanos < NANOS_PER_SEC && -(secs * NANOS_PER_SEC + nanos) >= i64::MIN
                * NANOS_PER_SEC,
            time matches Some(t) ==> t@ == -(secs * NANOS_PER_SEC + nanos),
    {
        if nanos >= NANOS_PER_SEC {
            return None;
        }
        let whole: i128 = -(secs as i128);
        let floor: i128 = if nanos == 0 {
            whole
        } else {
            whole - 1
        };
        if floor < -0x8000_0000_0000_0000 {
            return None;
        }
        let rest: u32 = if nanos == 0 {
            0
        } else {
            NANOS_PER_SEC - nanos
        };
        Some(UnixTime { secs: floor as i64, nanos: rest })
    }
}

/// The whole seconds from `from` to `to`, both in nanoseconds; zero where `to`
/// comes first.
pub open spec fn seconds_between(from: int, to: int) -> int {
    if to < from {
        0
    } else {
        (to - from) / NANOS_PER_SEC as int
    }
}

/// What the report says of one log.
#[derive(Debug, Clone, Copy, PartialEq, Eq, Structural)]
pub struct FileHealth {
    /// The time of the last line, in seconds since the Unix epoch.
    pub last_update_unix: Option<u64>,
    /// How long ago that was, in seconds.
    pub seconds_since_last_update: Option<u64>,
    /// The number of lines that were seen.
    pub lines_seen: u64,
}

/// The report on both logs.
#[derive(Debug, Clone, Copy, PartialEq, Eq, Structural)]
pub struct HealthResponse {
    pub access_log: FileHealth,
    pub error_log: FileHealth,
}

/// The report on a log whose last line, if any, came at `last`, in nanoseconds
/// since the epoch, of which `seen` lines were seen, at the time `now`.
pub open spec fn is_health_of(
    health: FileHealth,
    last: Option<int>,
    seen: nat,
    now: int,
) -> bool {
    &&& health.lines_seen == seen
    &&& match last {
        Some(time) => {
            &&& health.last_update_unix is Some
            &&& health.last_update_unix->0 == seconds_between(0, time)
            &&& health.seconds_since_last_update is Some
            &&& health.seconds_since_last_update->0 == seconds_between(time, now)
        },
        None => health.last_update_unix is None && health.seconds_since_last_update is None,
    }
}

/// The whole seconds from one time to another; zero where `to` comes first.
fn seconds_from(from: UnixTime, to: UnixTime) -> (secs: u64)
    ensures
        secs == seconds_between(from@, to@),
{
    proof {
        use_type_invariant(from);
        use_type_invariant(to);
    }
    if to.secs < from.secs || (to.secs == from.secs && to.nanos < from.nanos) {
        return 0;
    }
    let whole: i128 = to.secs as i128 - from.secs as i128;
    let secs: i128 = if to.nanos < from.nanos {
        whole - 1
    } else {
        whole
    };
    secs as u64
}

/// The whole seconds since the Unix epoch; zero for a time before it.
pub fn system_time_to_unix_secs(t: UnixTime) -> (secs: u64)
    ensures
        secs == seconds_between(0, t@),
{
    seconds_from(UnixTime { secs: 0, nanos: 0 }, t)
}

/// Reports on one log.
pub fn build_file_health(
    last_update: Option<UnixTime>,
    lines_seen: u64,
    now: UnixTime,
) -> (health: FileHealth)
    ensures
        is_health_of(
            health,
            match last_update {
                Some(t) => Some(t@),
                None => None,
            },
            lines_seen as nat,
            now@,
        ),
{
    match last_update {
        Some(t) => FileHealth {
            last_update_unix: Some(system_time_to_unix_secs(t)),
            seconds_since_last_update: Some(seconds_from(t, now)),
            lines_seen,
        },
        None => FileHealth {
            last_update_unix: None,
            seconds_since_last_update: None,
            lines_seen,
        },
    }
}

/// The report is determined by the log and the time.
pub proof fn law_health_is_determined(
    a: FileHealth,
    b: FileHealth,
    last: Option<int>,
    seen: nat,
    now: int,
)
    requires
        is_health_of(a, last, seen, now),
        is_health_of(b, last, seen, now),
    ensures
        a == b,
{
}

/// Where the last line came after the epoch and before the report, the time of
/// that line and its age add up to the time of the report, to the second.
pub proof fn law_age_and_time_add_up(health: FileHealth, last: int, seen: nat, now: int)
    requires
        is_health_of(health, Some(last), seen, now),
        0 <= last <= now,
    ensures
        seconds_between(0, now) - 1 <= health.last_update_unix->0
            + health.seconds_since_last_update->0 <= seconds_between(0, now),
{
}

/// A clock that was set back makes the age zero.
pub proof fn law_age_is_zero_when_clock_went_back(
    health: FileHealth,
    last: int,
    seen: nat,
    now: int,
)
    requires
        is_health_of(health, Some(last), seen, now),
        now <= last,
    ensures
        health.seconds_since_last_update == Some(0u64),
{
}

/// The report tells the whole seconds from the epoch to the last line, and from
/// the last line to the report: as many as fit, and none where the order is the
/// other way round. Without a line it tells neither. The lines that it counts
/// are those that were seen.
pub proof fn law_report_counts_whole_seconds(
    health: FileHealth,
    last: Option<int>,
    seen: nat,
    now: int,
)
    requires
        is_health_of(health, last, seen, now),
    ensures
        health.lines_seen as nat == seen,
        last is None <==> health.last_update_unix is None,
        last is None <==> health.seconds_since_last_update is None,
        last is Some ==> ({
            let time = last->0;
            let at = health.last_update_unix->0 as int;
            let age = health.seconds_since_last_update->0 as int;
            &&& time >= 0 ==> at * 1_000_000_000 <= time < (at + 1) * 1_000_000_000
            &&& time < 0 ==> at == 0
            &&& now >= time ==> age * 1_000_000_000 <= now - time < (age + 1) * 1_000_000_000
            &&& now < time ==> age == 0
        }),
{
}

/// A second later, the report tells the same time of the last line and an age of
/// one second more.
pub proof fn law_age_grows_with_time(
    early: FileHealth,
    late: FileHealth,
    last: int,
    seen: nat,
    now: int,
    seconds: nat,
)
    requires
        last <= now,
        is_health_of(early, Some(last), seen, now),
        is_health_of(late, Some(last), seen, now + seconds * 1_000_000_000),
    ensures
        late.seconds_since_last_update->0 == early.seconds_since_last_update->0 + seconds,
        late.last_update_unix == early.last_update_unix,
        late.lines_seen == early.lines_seen,
{
}

} // verus!
