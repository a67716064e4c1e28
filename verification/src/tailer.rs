//! Follows a growing log file, as `tail -F` does.
//!
//! The file is opened and followed from its end. When nothing more can be read
//! and the file is shorter than what was read of it, it was rotated or
//! truncated, and is opened again. The decisions are a state machine: the
//! caller performs a command, hands back what came of it, and gets the next
//! command.
use vstd::prelude::*;

use crate::text::{lemma_trimmed_end, trim_end, trimmed_end, CharSet};

verus! {

/// The pause before another attempt to open the file, in milliseconds.
pub const OPEN_RETRY_MILLIS: u64 = 5000;

/// The pause after a read that failed, in milliseconds.
pub const READ_RETRY_MILLIS: u64 = 1000;

/// The pause at the end of the file, in milliseconds.
pub const IDLE_MILLIS: u64 = 500;

/// What the follower is waiting for.
#[derive(Debug, Clone, Copy, PartialEq, Eq, Structural)]
pub enum TailState {
    /// The file is being opened.
    Opening,
    /// The new file is being moved to its end.
    Seeking,
    /// The size of the new file is being looked up.
    Sizing,
    /// A line is being read; `position` bytes lie before it.
    Reading { position: u64 },
    /// A line is being handed on.
    Delivering { position: u64 },
    /// Nothing was left to read; the size of the file is being looked up.
    AtEnd { position: u64 },
    /// A pause, after which reading goes on.
    Idle { position: u64 },
    /// A pause, after which the file is opened again.
    Backoff,
}

/// What came of a command.
#[derive(Debug)]
pub enum TailEvent {
    /// The command was performed.
    Done,
    /// The command failed.
    Failed,
    /// The size of the file, or none where it could not be had.
    Size { length: Option<u64> },
    /// A read gave so many bytes, which are `line`.
    Line { bytes: usize, line: String },
}

/// What is to be done next.
#[derive(Debug)]
pub enum TailCommand {
    /// Open the file.
    Open,
    /// Move to the end of the opened file.
    SeekToEnd,
    /// Look up the size of the file at the path.
    AskSize,
    /// Read a line from the opened file.
    ReadLine,
    /// Hand the line on.
    Deliver { line: String },
    /// Pause.
    Sleep { millis: u64 },
}

/// The mathematical content of a [`TailEvent`].
pub enum TailInput {
    Done,
    Failed,
    Size { length: Option<u64> },
    Line { bytes: nat, line: Seq<char> },
}

/// The mathematical content of a [`TailCommand`].
pub enum TailOutput {
    Open,
    SeekToEnd,
    AskSize,
    ReadLine,
    Deliver { line: Seq<char> },
    Sleep { millis: u64 },
}

impl View for TailEvent {
    type V = TailInput;

    open spec fn view(&self) -> TailInput {
        match *self {
            TailEvent::Done => TailInput::Done,
            TailEvent::Failed => TailInput::Failed,
            TailEvent::Size { length } => TailInput::Size { length },
            TailEvent::Line { bytes, line } => TailInput::Line { bytes: bytes as nat, line: line@ },
        }
    }
}

impl View for TailCommand {
    type V = TailOutput;

    open spec fn view(&self) -> TailOutput {
        match *self {
            TailCommand::Open => TailOutput::Open,
            TailCommand::SeekToEnd => TailOutput::SeekToEnd,
            TailCommand::AskSize => TailOutput::AskSize,
            TailCommand::ReadLine => TailOutput::ReadLine,
            TailCommand::Deliver { line } => TailOutput::Deliver { line: line@ },
            TailCommand::Sleep { millis } => TailOutput::Sleep { millis },
        }
    }
}

/// The line without its line end.
pub open spec fn line_content(line: Seq<char>) -> Seq<char> {
    trimmed_end(line, CharSet::LineEnd)
}

/// `input` answers the command that led to `state`, and the position stays
/// within 64 bits.
pub open spec fn answers(state: TailState, input: TailInput) -> bool {
    match state {
        TailState::Opening => input is Done || input is Failed,
        TailState::Seeking => input is Done || input is Failed,
        TailState::Sizing => input is Size,
        TailState::Reading { position } => match input {
            TailInput::Line { bytes, .. } => position + bytes <= u64::MAX,
            TailInput::Failed => true,
            _ => false,
        },
        TailState::Delivering { .. } => input is Done,
        TailState::AtEnd { .. } => input is Size,
        TailState::Idle { .. } => input is Done,
        TailState::Backoff => input is Done,
    }
}

/// The state and the command that follow `input` in `state`.
pub open spec fn followed(state: TailState, input: TailInput) -> (TailState, TailOutput) {
    match (state, input) {
        (TailState::Opening, TailInput::Done) => (TailState::Seeking, TailOutput::SeekToEnd),
        (TailState::Opening, _) => (
            TailState::Backoff,
            TailOutput::Sleep { millis: OPEN_RETRY_MILLIS },
        ),
        // A file that cannot be moved to its end is read all the same.
        (TailState::Seeking, _) => (TailState::Sizing, TailOutput::AskSize),
        (TailState::Sizing, TailInput::Size { length: Some(length) }) => (
            TailState::Reading { position: length },
            TailOutput::ReadLine,
        ),
        (TailState::Sizing, _) => (TailState::Reading { position: 0 }, TailOutput::ReadLine),
        (TailState::Reading { position }, TailInput::Line { bytes, line }) => {
            let next = (position + bytes) as u64;
            if bytes == 0 {
                (TailState::AtEnd { position }, TailOutput::AskSize)
            } else if line_content(line).len() == 0 {
                (TailState::Reading { position: next }, TailOutput::ReadLine)
            } else {
                (
                    TailState::Delivering { position: next },
                    TailOutput::Deliver { line: line_content(line) },
                )
            }
        },
        (TailState::Reading { .. }, _) => (
            TailState::Backoff,
            TailOutput::Sleep { millis: READ_RETRY_MILLIS },
        ),
        (TailState::AtEnd { position }, TailInput::Size { length: Some(length) }) => {
            if length < position {
                (TailState::Opening, TailOutput::Open)
            } else {
                (TailState::Idle { position }, TailOutput::Sleep { millis: IDLE_MILLIS })
            }
        },
        (TailState::AtEnd { .. }, _) => (TailState::Opening, TailOutput::Open),
        (TailState::Delivering { position }, _) => (
            TailState::Reading { position },
            TailOutput::ReadLine,
        ),
        (TailState::Idle { position }, _) => (TailState::Reading { position }, TailOutput::ReadLine),
        (TailState::Backoff, _) => (TailState::Opening, TailOutput::Open),
    }
}

/// The state and the command with which following a file begins.
pub fn tail_start() -> (start: (TailState, TailCommand))
    ensures
        start.0 == TailState::Opening,
        start.1@ == TailOutput::Open,
{
    (TailState::Opening, TailCommand::Open)
}

/// Tells whether `event` answers the command that led to `state`, and leaves
/// the position within 64 bits.
pub fn tail_accepts(state: TailState, event: &TailEvent) -> (accepted: bool)
    ensures
        accepted == answers(state, event@),
{
    match state {
        TailState::Opening | TailState::Seeking => match event {
            TailEvent::Done | TailEvent::Failed => true,
            _ => false,
        },
        TailState::Sizing | TailState::AtEnd { .. } => match event {
            TailEvent::Size { .. } => true,
            _ => false,
        },
        TailState::Reading { position } => match event {
            TailEvent::Line { bytes, .. } => *bytes as u64 <= u64::MAX - position,
            TailEvent::Failed => true,
            _ => false,
        },
        TailState::Delivering { .. } | TailState::Idle { .. } | TailState::Backoff => match event {
            TailEvent::Done => true,
            _ => false,
        },
    }
}

/// Decides what follows an event.
pub fn tail_step(state: TailState, event: TailEvent) -> (next: (TailState, TailCommand))
    requires
        answers(state, event@),
    ensures
        (next.0, next.1@) == followed(state, event@),
{
    match state {
        TailState::Opening => match event {
            TailEvent::Done => (TailState::Seeking, TailCommand::SeekToEnd),
            _ => (TailState::Backoff, TailCommand::Sleep { millis: OPEN_RETRY_MILLIS }),
        },
        TailState::Seeking => (TailState::Sizing, TailCommand::AskSize),
        TailState::Sizing => match event {
            TailEvent::Size { length: Some(length) } => (
                TailState::Reading { position: length },
                TailCommand::ReadLine,
            ),
            _ => (TailState::Reading { position: 0 }, TailCommand::ReadLine),
        },
        TailState::Reading { position } => match event {
            TailEvent::Line { bytes, line } => {
                if bytes == 0 {
                    return (TailState::AtEnd { position }, TailCommand::AskSize);
                }
                let position: u64 = position + bytes as u64;
                let content = trim_end(line.as_str(), CharSet::LineEnd);
                if content.is_empty() {
                    return (TailState::Reading { position }, TailCommand::ReadLine);
                }
                (
                    TailState::Delivering { position },
                    TailCommand::Deliver { line: content.to_string() },
                )
            },
            _ => (TailState::Backoff, TailCommand::Sleep { millis: READ_RETRY_MILLIS }),
        },
        TailState::AtEnd { position } => match event {
            TailEvent::Size { length: Some(length) } => {
                if length < position {
                    (TailState::Opening, TailCommand::Open)
                } else {
                    (TailState::Idle { position }, TailCommand::Sleep { millis: IDLE_MILLIS })
                }
            },
            _ => (TailState::Opening, TailCommand::Open),
        },
        TailState::Delivering { position } => (
            TailState::Reading { position },
            TailCommand::ReadLine,
        ),
        TailState::Idle { position } => (TailState::Reading { position }, TailCommand::ReadLine),
        TailState::Backoff => (TailState::Opening, TailCommand::Open),
    }
}

// ---------------------------------------------------------------------------
// Laws
// ---------------------------------------------------------------------------

/// Each input of a run answers the command before it.
pub open spec fn valid_run(state: TailState, inputs: Seq<TailInput>) -> bool
    decreases inputs.len(),
{
    inputs.len() > 0 ==> answers(state, inputs.first()) && valid_run(
        followed(state, inputs.first()).0,
        inputs.drop_first(),
    )
}

/// The state in which a run ends.
pub open spec fn run_state(state: TailState, inputs: Seq<TailInput>) -> TailState
    decreases inputs.len(),
{
    if inputs.len() == 0 {
        state
    } else {
        run_state(followed(state, inputs.first()).0, inputs.drop_first())
    }
}

/// The lines that a run hands on, in order.
pub open spec fn run_lines(state: TailState, inputs: Seq<TailInput>) -> Seq<Seq<char>>
    decreases inputs.len(),
{
    if inputs.len() == 0 {
        Seq::empty()
    } else {
        let (next, output) = followed(state, inputs.first());
        let rest = run_lines(next, inputs.drop_first());
        match output {
            TailOutput::Deliver { line } => seq![line] + rest,
            _ => rest,
        }
    }
}

/// The contents of the lines that were read in a run, without the empty ones.
pub open spec fn contents_read(inputs: Seq<TailInput>) -> Seq<Seq<char>>
    decreases inputs.len(),
{
    if inputs.len() == 0 {
        Seq::empty()
    } else {
        let rest = contents_read(inputs.drop_first());
        match inputs.first() {
            TailInput::Line { bytes, line } => if bytes > 0 && line_content(line).len() > 0 {
                seq![line_content(line)] + rest
            } else {
                rest
            },
            _ => rest,
        }
    }
}

/// The position within the opened file, where there is one.
pub open spec fn position_in(state: TailState) -> Option<nat> {
    match state {
        TailState::Reading { position } => Some(position as nat),
        TailState::Delivering { position } => Some(position as nat),
        TailState::AtEnd { position } => Some(position as nat),
        TailState::Idle { position } => Some(position as nat),
        _ => None,
    }
}

/// The bytes that an input reports as read.
pub open spec fn bytes_in(input: TailInput) -> nat {
    match input {
        TailInput::Line { bytes, .. } => bytes,
        _ => 0,
    }
}

/// The bytes that the inputs of a run report as read.
pub open spec fn bytes_read(inputs: Seq<TailInput>) -> nat
    decreases inputs.len(),
{
    if inputs.len() == 0 {
        0
    } else {
        bytes_in(inputs.first()) + bytes_read(inputs.drop_first())
    }
}

/// The file stays open throughout a run.
pub open spec fn stays_open(state: TailState, inputs: Seq<TailInput>) -> bool
    decreases inputs.len(),
{
    position_in(state) is Some && (inputs.len() > 0 ==> stays_open(
        followed(state, inputs.first()).0,
        inputs.drop_first(),
    ))
}

/// A line that is handed on is not empty, does not end with a line feed or a
/// carriage return, and is what was read up to its line end.
pub proof fn law_delivered_line_is_clean(state: TailState, input: TailInput)
    requires
        answers(state, input),
        followed(state, input).1 is Deliver,
    ensures
        ({
            let line = followed(state, input).1->line;
            &&& line.len() > 0
            &&& line.last() != '\n'
            &&& line.last() != '\r'
            &&& input is Line
            &&& line.is_prefix_of(input->line)
            &&& forall|i: int|
                line.len() <= i < input->line.len() ==> CharSet::LineEnd.holds(
                    #[trigger] input->line[i],
                )
        }),
{
    lemma_trimmed_end(input->line, CharSet::LineEnd);
}

/// Every line that is read is handed on, in order and once, save the empty
/// ones; nothing else is handed on.
pub proof fn law_no_line_is_lost(state: TailState, inputs: Seq<TailInput>)
    requires
        valid_run(state, inputs),
    ensures
        run_lines(state, inputs) == contents_read(inputs),
    decreases inputs.len(),
{
    if inputs.len() > 0 {
        law_no_line_is_lost(followed(state, inputs.first()).0, inputs.drop_first());
    }
}

/// While a file stays open, the position is where the run began plus all the
/// bytes that were read since.
pub proof fn law_position_counts_bytes(state: TailState, inputs: Seq<TailInput>)
    requires
        valid_run(state, inputs),
        stays_open(state, inputs),
    ensures
        position_in(run_state(state, inputs)) == Some(
            (position_in(state)->0 + bytes_read(inputs)) as nat,
        ),
    decreases inputs.len(),
{
    if inputs.len() > 0 {
        reveal_with_fuel(stays_open, 2);
        law_position_counts_bytes(followed(state, inputs.first()).0, inputs.drop_first());
    }
}

/// An opened file is followed from its size at that time, or from zero where
/// the size cannot be had, whether or not the seek succeeded.
pub proof fn law_opened_file_is_followed_from_its_end(sought: TailInput, length: Option<u64>)
    requires
        answers(TailState::Seeking, sought),
    ensures
        run_state(
            TailState::Opening,
            seq![TailInput::Done, sought, TailInput::Size { length }],
        ) == (TailState::Reading {
            position: match length {
                Some(n) => n,
                None => 0,
            },
        }),
{
    let inputs = seq![TailInput::Done, sought, TailInput::Size { length }];
    assert(inputs.drop_first() =~= seq![sought, TailInput::Size { length }]);
    assert(inputs.drop_first().drop_first() =~= seq![TailInput::Size { length }]);
    assert(inputs.drop_first().drop_first().drop_first() =~= Seq::<TailInput>::empty());
    reveal_with_fuel(run_state, 4);
}

/// At the end of the file, the file is opened again if and only if its size
/// cannot be had or is less than the position; else reading goes on, at the
/// same position, after a pause.
pub proof fn law_reopened_only_when_shorter(position: u64, length: Option<u64>)
    ensures
        ({
            let (next, output) = followed(
                TailState::AtEnd { position },
                TailInput::Size { length },
            );
            let shorter = length is None || length->0 < position;
            &&& shorter <==> next == TailState::Opening
            &&& shorter ==> output == TailOutput::Open
            &&& !shorter ==> next == (TailState::Idle { position }) && output == (
            TailOutput::Sleep { millis: IDLE_MILLIS }) && followed(next, TailInput::Done) == (
                TailState::Reading { position },
                TailOutput::ReadLine,
            )
        }),
{
}

/// A file that cannot be opened, and one that cannot be read, is opened again
/// after the pause that is set for it.
pub proof fn law_failures_are_retried(position: u64)
    ensures
        followed(TailState::Opening, TailInput::Failed) == (
            TailState::Backoff,
            TailOutput::Sleep { millis: 5000 },
        ),
        followed(TailState::Reading { position }, TailInput::Failed) == (
            TailState::Backoff,
            TailOutput::Sleep { millis: 1000 },
        ),
        followed(TailState::Backoff, TailInput::Done) == (TailState::Opening, TailOutput::Open),
{
}

/// The commands that a run gives, in order.
pub open spec fn run_outputs(state: TailState, inputs: Seq<TailInput>) -> Seq<TailOutput>
    decreases inputs.len(),
{
    if inputs.len() == 0 {
        Seq::empty()
    } else {
        let (next, output) = followed(state, inputs.first());
        seq![output] + run_outputs(next, inputs.drop_first())
    }
}

/// A run goes on from where an earlier one ended.
pub proof fn law_runs_compose(state: TailState, a: Seq<TailInput>, b: Seq<TailInput>)
    ensures
        run_state(state, a + b) == run_state(run_state(state, a), b),
        run_outputs(state, a + b) == run_outputs(state, a) + run_outputs(run_state(state, a), b),
        valid_run(state, a + b) <==> valid_run(state, a) && valid_run(run_state(state, a), b),
    decreases a.len(),
{
    if a.len() == 0 {
        assert(a + b =~= b);
        assert(run_outputs(state, a) + run_outputs(state, b) =~= run_outputs(state, b));
    } else {
        let next = followed(state, a.first()).0;
        assert((a + b).first() == a.first());
        assert((a + b).drop_first() =~= a.drop_first() + b);
        law_runs_compose(next, a.drop_first(), b);
        assert(run_outputs(state, a + b) =~= run_outputs(state, a) + run_outputs(
            run_state(state, a),
            b,
        ));
    }
}

/// A run of one input.
proof fn lemma_run_of_one(state: TailState, input: TailInput)
    ensures
        run_state(state, seq![input]) == followed(state, input).0,
        run_outputs(state, seq![input]) == seq![followed(state, input).1],
        valid_run(state, seq![input]) <==> answers(state, input),
{
    let rest = seq![input].drop_first();
    assert(rest =~= Seq::<TailInput>::empty());
    let next = followed(state, input).0;
    assert(run_state(next, rest) == next);
    assert(run_outputs(next, rest) =~= Seq::<TailOutput>::empty());
    assert(valid_run(next, rest));
    assert(run_outputs(state, seq![input]) =~= seq![followed(state, input).1]);
}

/// A run of two inputs.
proof fn lemma_run_of_two(state: TailState, a: TailInput, b: TailInput)
    ensures
        run_state(state, seq![a, b]) == followed(followed(state, a).0, b).0,
        run_outputs(state, seq![a, b]) == seq![
            followed(state, a).1,
            followed(followed(state, a).0, b).1,
        ],
        valid_run(state, seq![a, b]) <==> answers(state, a) && answers(followed(state, a).0, b),
{
    assert(seq![a, b] =~= seq![a] + seq![b]);
    law_runs_compose(state, seq![a], seq![b]);
    lemma_run_of_one(state, a);
    lemma_run_of_one(followed(state, a).0, b);
}

/// A run of three inputs.
proof fn lemma_run_of_three(state: TailState, a: TailInput, b: TailInput, c: TailInput)
    ensures
        ({
            let second = followed(state, a).0;
            let third = followed(second, b).0;
            &&& run_state(state, seq![a, b, c]) == followed(third, c).0
            &&& run_outputs(state, seq![a, b, c]) == seq![
                followed(state, a).1,
                followed(second, b).1,
                followed(third, c).1,
            ]
            &&& valid_run(state, seq![a, b, c]) <==> answers(state, a) && answers(second, b)
                && answers(third, c)
        }),
{
    assert(seq![a, b, c] =~= seq![a, b] + seq![c]);
    law_runs_compose(state, seq![a, b], seq![c]);
    lemma_run_of_two(state, a, b);
    lemma_run_of_one(followed(followed(state, a).0, b).0, c);
}

/// Whatever can come of a command is an answer to it: opening and moving succeed
/// or fail, the size is had or not, a read gives a line of any length or fails,
/// and a pause and a delivery end. The one limit is that the position fits in 64
/// bits. What came of another command is no answer.
pub proof fn law_every_outcome_is_an_answer(
    position: u64,
    bytes: nat,
    line: Seq<char>,
    length: Option<u64>,
)
    ensures
        forall|input: TailInput|
            {
                &&& #[trigger] answers(TailState::Opening, input) == (input == TailInput::Done
                    || input == TailInput::Failed)
                &&& answers(TailState::Seeking, input) == (input == TailInput::Done || input
                    == TailInput::Failed)
                &&& answers(TailState::Sizing, input) == (input is Size)
                &&& answers(TailState::AtEnd { position }, input) == (input is Size)
                &&& answers(TailState::Delivering { position }, input) == (input
                    == TailInput::Done)
                &&& answers(TailState::Idle { position }, input) == (input == TailInput::Done)
                &&& answers(TailState::Backoff, input) == (input == TailInput::Done)
                &&& input is Done || input is Size ==> !answers(
                    TailState::Reading { position },
                    input,
                )
            },
        answers(TailState::Reading { position }, TailInput::Failed),
        answers(TailState::Reading { position }, TailInput::Line { bytes, line }) <==> position
            + bytes <= 0xffff_ffff_ffff_ffff,
{
}

/// At every end of the file, wherever it is, the size of the file is looked up.
/// If it cannot be had or is less than the position, the file is opened again at
/// once. Else reading goes on at the same position, after half a second.
pub proof fn law_end_of_file_is_checked(position: u64, line: Seq<char>, length: Option<u64>)
    ensures
        ({
            let start = TailState::Reading { position };
            let seen = seq![TailInput::Line { bytes: 0, line }, TailInput::Size { length }];
            let shorter = length is None || length->0 < position;
            &&& valid_run(start, seen)
            &&& shorter ==> run_state(start, seen) == TailState::Opening && run_outputs(start, seen)
                == seq![TailOutput::AskSize, TailOutput::Open]
            &&& !shorter ==> valid_run(start, seen + seq![TailInput::Done]) && run_state(
                start,
                seen + seq![TailInput::Done],
            ) == start && run_outputs(start, seen + seq![TailInput::Done]) == seq![
                TailOutput::AskSize,
                TailOutput::Sleep { millis: 500 },
                TailOutput::ReadLine,
            ]
        }),
{
    let start = TailState::Reading { position };
    let (a, b) = (TailInput::Line { bytes: 0, line }, TailInput::Size { length });
    lemma_run_of_two(start, a, b);
    lemma_run_of_three(start, a, b, TailInput::Done);
    assert(seq![a, b] + seq![TailInput::Done] =~= seq![a, b, TailInput::Done]);
}

/// Characters that end a line.
pub open spec fn line_ends(ends: Seq<char>) -> bool {
    forall|i: int| 0 <= i < ends.len() ==> #[trigger] ends[i] == '\n' || ends[i] == '\r'
}

/// A line that is read is handed on without what ends it, and reading goes on
/// behind it, wherever in the file it stands and however long it is.
pub proof fn law_line_is_handed_on(position: u64, bytes: nat, text: Seq<char>, ends: Seq<char>)
    requires
        bytes > 0,
        position + bytes <= u64::MAX,
        text.len() > 0,
        text.last() != '\n' && text.last() != '\r',
        line_ends(ends),
    ensures
        ({
            let start = TailState::Reading { position };
            let seen = seq![TailInput::Line { bytes, line: text + ends }, TailInput::Done];
            &&& valid_run(start, seen)
            &&& run_outputs(start, seen) == seq![
                TailOutput::Deliver { line: text },
                TailOutput::ReadLine,
            ]
            &&& run_state(start, seen) == (TailState::Reading { position: (position + bytes) as u64
            })
        }),
{
    lemma_line_content(text, ends);
    lemma_run_of_two(
        TailState::Reading { position },
        TailInput::Line { bytes, line: text + ends },
        TailInput::Done,
    );
}

/// A line that holds only what ends it is not handed on, and reading goes on
/// behind it.
pub proof fn law_empty_line_is_passed_over(position: u64, bytes: nat, ends: Seq<char>)
    requires
        bytes > 0,
        position + bytes <= u64::MAX,
        line_ends(ends),
    ensures
        ({
            let start = TailState::Reading { position };
            let seen = seq![TailInput::Line { bytes, line: ends }];
            &&& valid_run(start, seen)
            &&& run_outputs(start, seen) == seq![TailOutput::ReadLine]
            &&& run_state(start, seen) == (TailState::Reading { position: (position + bytes) as u64
            })
        }),
{
    let none = Seq::<char>::empty();
    lemma_line_content(none, ends);
    assert(none + ends =~= ends);
    lemma_run_of_one(TailState::Reading { position }, TailInput::Line { bytes, line: ends });
}

/// What is left of a line without what ends it.
proof fn lemma_line_content(text: Seq<char>, ends: Seq<char>)
    requires
        text.len() > 0 ==> text.last() != '\n' && text.last() != '\r',
        line_ends(ends),
    ensures
        line_content(text + ends) == text,
    decreases ends.len(),
{
    let line = text + ends;
    if ends.len() > 0 {
        let less = ends.drop_last();
        assert(ends[ends.len() - 1] == '\n' || ends[ends.len() - 1] == '\r');
        assert forall|i: int| 0 <= i < less.len() implies #[trigger] less[i] == '\n' || less[i]
            == '\r' by {
            assert(less[i] == ends[i]);
        }
        lemma_line_content(text, less);
        assert(line.drop_last() =~= text + less);
    } else {
        assert(line =~= text);
    }
}

/// A file that was opened is moved to its end, its size is looked up, and reading
/// begins at that size, or at zero where it cannot be had. It does not matter
/// whether the move succeeded.
pub proof fn law_opening_leads_to_reading(moved: bool, length: Option<u64>)
    ensures
        ({
            let sought = if moved {
                TailInput::Done
            } else {
                TailInput::Failed
            };
            let seen = seq![TailInput::Done, sought, TailInput::Size { length }];
            &&& valid_run(TailState::Opening, seen)
            &&& run_outputs(TailState::Opening, seen) == seq![
                TailOutput::SeekToEnd,
                TailOutput::AskSize,
                TailOutput::ReadLine,
            ]
            &&& run_state(TailState::Opening, seen) == (TailState::Reading {
                position: match length {
                    Some(n) => n,
                    None => 0,
                },
            })
        }),
{
    let sought = if moved {
        TailInput::Done
    } else {
        TailInput::Failed
    };
    lemma_run_of_three(
        TailState::Opening,
        TailInput::Done,
        sought,
        TailInput::Size { length },
    );
}

/// After a failure the file is opened again: after five seconds where it could
/// not be opened, and after one second where it could not be read, wherever that
/// was.
pub proof fn law_failure_leads_to_opening(position: u64)
    ensures
        ({
            let seen = seq![TailInput::Failed, TailInput::Done];
            let reading = TailState::Reading { position };
            &&& valid_run(TailState::Opening, seen)
            &&& run_state(TailState::Opening, seen) == TailState::Opening
            &&& run_outputs(TailState::Opening, seen) == seq![
                TailOutput::Sleep { millis: 5000 },
                TailOutput::Open,
            ]
            &&& valid_run(reading, seen)
            &&& run_state(reading, seen) == TailState::Opening
            &&& run_outputs(reading, seen) == seq![
                TailOutput::Sleep { millis: 1000 },
                TailOutput::Open,
            ]
        }),
{
    lemma_run_of_two(TailState::Opening, TailInput::Failed, TailInput::Done);
    lemma_run_of_two(TailState::Reading { position }, TailInput::Failed, TailInput::Done);
}

/// A log that was rotated or truncated is followed on: once the end of the old
/// file was reached and the file at the path is shorter, it is opened, and the
/// next line of it is handed on.
pub proof fn law_rotated_log_is_followed_on(
    position: u64,
    length: Option<u64>,
    moved: bool,
    size: u64,
    bytes: nat,
    text: Seq<char>,
    ends: Seq<char>,
)
    requires
        length is None || length->0 < position,
        bytes > 0,
        size + bytes <= u64::MAX,
        text.len() > 0,
        text.last() != '\n' && text.last() != '\r',
        line_ends(ends),
    ensures
        ({
            let start = TailState::Reading { position };
            let sought = if moved {
                TailInput::Done
            } else {
                TailInput::Failed
            };
            let seen = seq![
                TailInput::Line { bytes: 0, line: Seq::empty() },
                TailInput::Size { length },
                TailInput::Done,
                sought,
                TailInput::Size { length: Some(size) },
                TailInput::Line { bytes, line: text + ends },
                TailInput::Done,
            ];
            &&& valid_run(start, seen)
            &&& run_outputs(start, seen).contains(TailOutput::Open)
            &&& run_outputs(start, seen).contains(TailOutput::Deliver { line: text })
            &&& run_state(start, seen) == (TailState::Reading { position: (size + bytes) as u64 })
        }),
{
    let start = TailState::Reading { position };
    let sought = if moved {
        TailInput::Done
    } else {
        TailInput::Failed
    };
    let ended = seq![
        TailInput::Line { bytes: 0, line: Seq::empty() },
        TailInput::Size { length },
    ];
    let opened = seq![TailInput::Done, sought, TailInput::Size { length: Some(size) }];
    let read = seq![TailInput::Line { bytes, line: text + ends }, TailInput::Done];
    law_end_of_file_is_checked(position, Seq::empty(), length);
    law_opening_leads_to_reading(moved, Some(size));
    law_line_is_handed_on(size, bytes, text, ends);
    law_runs_compose(start, ended, opened);
    law_runs_compose(start, ended + opened, read);
    let seen = seq![
        TailInput::Line { bytes: 0, line: Seq::empty() },
        TailInput::Size { length },
        TailInput::Done,
        sought,
        TailInput::Size { length: Some(size) },
        TailInput::Line { bytes, line: text + ends },
        TailInput::Done,
    ];
    assert(seen =~= ended + opened + read);
    let outputs = run_outputs(start, seen);
    assert(outputs[1] == TailOutput::Open);
    assert(outputs[5] == (TailOutput::Deliver { line: text }));
}

/// Events and commands stand for what they hold.
pub proof fn law_events_and_commands_hold_their_content(event: TailEvent, command: TailCommand)
    ensures
        event is Done <==> event@ == TailInput::Done,
        event is Failed <==> event@ == TailInput::Failed,
        event matches TailEvent::Size { length } ==> event@ == (TailInput::Size { length }),
        event matches TailEvent::Line { bytes, line } ==> event@ == (TailInput::Line {
            bytes: bytes as nat,
            line: line@,
        }),
        command is Open <==> command@ == TailOutput::Open,
        command is SeekToEnd <==> command@ == TailOutput::SeekToEnd,
        command is AskSize <==> command@ == TailOutput::AskSize,
        command is ReadLine <==> command@ == TailOutput::ReadLine,
        command matches TailCommand::Deliver { line } ==> command@ == (TailOutput::Deliver {
            line: line@,
        }),
        command matches TailCommand::Sleep { millis } ==> command@ == (TailOutput::Sleep { millis
        }),
{
}

} // verus!
