use nginx_logs::tailer::{
    tail_accepts, tail_start, tail_step, TailCommand, TailEvent, TailState,
};

fn step(state: TailState, event: TailEvent) -> (TailState, String) {
    assert!(tail_accepts(state, &event));
    let (next, command) = tail_step(state, event);
    (next, format!("{:?}", command))
}

fn line(text: &str) -> TailEvent {
    TailEvent::Line { bytes: text.len(), line: text.to_string() }
}

#[test]
fn following_begins_with_opening() {
    let (state, command) = tail_start();
    assert_eq!(state, TailState::Opening);
    assert!(matches!(command, TailCommand::Open));
}

#[test]
fn a_file_is_followed_from_its_end() {
    let (state, command) = step(TailState::Opening, TailEvent::Done);
    assert_eq!((state, command.as_str()), (TailState::Seeking, "SeekToEnd"));
    for sought in [TailEvent::Done, TailEvent::Failed] {
        let (state, command) = step(TailState::Seeking, sought);
        assert_eq!((state, command.as_str()), (TailState::Sizing, "AskSize"));
    }
    let (state, command) = step(TailState::Sizing, TailEvent::Size { length: Some(120) });
    assert_eq!((state, command.as_str()), (TailState::Reading { position: 120 }, "ReadLine"));
    let (state, command) = step(TailState::Sizing, TailEvent::Size { length: None });
    assert_eq!((state, command.as_str()), (TailState::Reading { position: 0 }, "ReadLine"));
}

#[test]
fn failures_are_retried_after_a_pause() {
    let (state, command) = step(TailState::Opening, TailEvent::Failed);
    assert_eq!((state, command.as_str()), (TailState::Backoff, "Sleep { millis: 5000 }"));
    let (state, command) = step(TailState::Reading { position: 3 }, TailEvent::Failed);
    assert_eq!((state, command.as_str()), (TailState::Backoff, "Sleep { millis: 1000 }"));
    let (state, command) = step(TailState::Backoff, TailEvent::Done);
    assert_eq!((state, command.as_str()), (TailState::Opening, "Open"));
}

#[test]
fn lines_are_handed_on_without_their_line_end() {
    let (state, command) = step(TailState::Reading { position: 10 }, line("a b \r\n"));
    assert_eq!(state, TailState::Delivering { position: 16 });
    assert_eq!(command, "Deliver { line: \"a b \" }");
    let (state, command) = step(state, TailEvent::Done);
    assert_eq!((state, command.as_str()), (TailState::Reading { position: 16 }, "ReadLine"));
    let (state, command) = step(state, line("\u{e9}"));
    assert_eq!(state, TailState::Delivering { position: 18 });
    assert_eq!(command, "Deliver { line: \"\u{e9}\" }");
}

#[test]
fn empty_lines_are_skipped() {
    for text in ["\n", "\r\n", "\n\r"] {
        let (state, command) = step(TailState::Reading { position: 5 }, line(text));
        assert_eq!(state, TailState::Reading { position: 5 + text.len() as u64 });
        assert_eq!(command, "ReadLine");
    }
}

#[test]
fn the_end_of_the_file_is_looked_at() {
    let (state, command) = step(TailState::Reading { position: 9 }, line(""));
    assert_eq!((state, command.as_str()), (TailState::AtEnd { position: 9 }, "AskSize"));
    for length in [9, 10] {
        let (state, command) = step(state, TailEvent::Size { length: Some(length) });
        assert_eq!(state, TailState::Idle { position: 9 });
        assert_eq!(command, "Sleep { millis: 500 }");
        let (state, command) = step(state, TailEvent::Done);
        assert_eq!((state, command.as_str()), (TailState::Reading { position: 9 }, "ReadLine"));
    }
}

#[test]
fn a_shorter_or_missing_file_is_opened_again() {
    for length in [Some(8), Some(0), None] {
        let (state, command) = step(
            TailState::AtEnd { position: 9 },
            TailEvent::Size { length },
        );
        assert_eq!((state, command.as_str()), (TailState::Opening, "Open"));
    }
}

#[test]
fn no_line_is_lost_in_a_run() {
    let mut state = TailState::Reading { position: 0 };
    let mut delivered = Vec::new();
    for text in ["one\n", "\n", "two\r\n", "", "three"] {
        let (next, command) = tail_step(state, line(text));
        state = next;
        if let TailCommand::Deliver { line } = command {
            delivered.push(line);
            state = tail_step(state, TailEvent::Done).0;
        }
        if let TailState::AtEnd { .. } = state {
            state = tail_step(state, TailEvent::Size { length: Some(100) }).0;
            state = tail_step(state, TailEvent::Done).0;
        }
    }
    assert_eq!(delivered, ["one", "two", "three"]);
    assert_eq!(state, TailState::Reading { position: 15 });
}

#[test]
fn only_answers_are_accepted() {
    assert!(!tail_accepts(TailState::Opening, &line("x")));
    assert!(!tail_accepts(TailState::Seeking, &TailEvent::Size { length: None }));
    assert!(!tail_accepts(TailState::Sizing, &TailEvent::Done));
    assert!(!tail_accepts(TailState::Reading { position: 0 }, &TailEvent::Done));
    assert!(!tail_accepts(TailState::AtEnd { position: 0 }, &TailEvent::Failed));
    assert!(!tail_accepts(TailState::Idle { position: 0 }, &TailEvent::Failed));
    assert!(!tail_accepts(TailState::Backoff, &TailEvent::Failed));
    assert!(!tail_accepts(TailState::Delivering { position: 0 }, &TailEvent::Failed));
    assert!(tail_accepts(TailState::Reading { position: u64::MAX - 1 }, &line("x")));
    assert!(!tail_accepts(TailState::Reading { position: u64::MAX }, &line("x")));
}
