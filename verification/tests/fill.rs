use hoard::fill::FillError;
use hoard::fill::FillEvent;
use hoard::fill::FillSession;
use hoard::fill::SessionStep;

fn feed_chars(mut session: FillSession, text: &str) -> FillSession {
    for c in text.chars() {
        match session.on_event(FillEvent::Character(c)) {
            SessionStep::AwaitingInput(next) => session = next,
            _ => panic!("the session should still await input"),
        }
    }
    session
}

fn submit(session: FillSession) -> SessionStep {
    session.on_event(FillEvent::Submit)
}

#[test]
fn session_fills_occurrence_with_end_token() {
    let session = FillSession::new("echo #param1$", "#", "$").unwrap();
    let session = feed_chars(session, "Hello, world!");
    match submit(session) {
        SessionStep::Done(cmd) => assert_eq!("echo Hello, world!", cmd),
        _ => panic!("the session should finish"),
    }
}

#[test]
fn session_fills_occurrence_without_end_token() {
    let session = FillSession::new("test1 # test3", "#", "").unwrap();
    let session = feed_chars(session, "replacement");
    match submit(session) {
        SessionStep::Done(cmd) => assert_eq!("test1 replacement test3", cmd),
        _ => panic!("the session should finish"),
    }
}

#[test]
fn session_keeps_value_containing_start_token_literal() {
    let session = FillSession::new("echo #x$ and #y$", "#", "$").unwrap();
    let session = feed_chars(session, "a#b");
    let session = match submit(session) {
        SessionStep::AwaitingInput(next) => next,
        _ => panic!("one occurrence should be left"),
    };
    assert_eq!(1, session.resolved_count);
    assert_eq!(0, session.pending.len());
    let session = feed_chars(session, "c");
    match submit(session) {
        SessionStep::Done(cmd) => assert_eq!("echo a#b and c", cmd),
        _ => panic!("the session should finish"),
    }
}

#[test]
fn session_rejects_empty_start_token() {
    assert!(matches!(FillSession::new("echo #x", "", "$"), Err(FillError::EmptyStartToken)));
}

#[test]
fn session_backspace_edits_pending_value() {
    let session = FillSession::new("#", "#", "$").unwrap();
    let session = feed_chars(session, "hix");
    let session = match session.on_event(FillEvent::Backspace) {
        SessionStep::AwaitingInput(next) => next,
        _ => panic!("the session should still await input"),
    };
    assert_eq!("hi", session.pending);
    match submit(session) {
        SessionStep::Done(cmd) => assert_eq!("hi", cmd),
        _ => panic!("the session should finish"),
    }
}

#[test]
fn session_backspace_on_empty_buffer_is_no_op() {
    let session = FillSession::new("#", "#", "").unwrap();
    let session = match session.on_event(FillEvent::Backspace) {
        SessionStep::AwaitingInput(next) => next,
        _ => panic!("the session should still await input"),
    };
    assert_eq!("", session.pending);
}

#[test]
fn session_cancel_yields_no_command() {
    let session = FillSession::new("echo #x", "#", "").unwrap();
    assert!(matches!(session.on_event(FillEvent::Cancel), SessionStep::Cancelled));
}

#[test]
fn session_strips_escape_markers_in_final_command() {
    let session = FillSession::new("say \\# and #w$", "#", "$").unwrap();
    let session = feed_chars(session, "now");
    match submit(session) {
        SessionStep::Done(cmd) => assert_eq!("say # and now", cmd),
        _ => panic!("the session should finish"),
    }
}

#[test]
fn session_resolves_occurrences_left_to_right() {
    let session = FillSession::new("#a$ #b$ #c$", "#", "$").unwrap();
    let session = feed_chars(session, "1");
    let session = match submit(session) {
        SessionStep::AwaitingInput(next) => next,
        _ => panic!("two occurrences should be left"),
    };
    assert_eq!("1 #b$ #c$", session.template);
    let session = feed_chars(session, "2");
    let session = match submit(session) {
        SessionStep::AwaitingInput(next) => next,
        _ => panic!("one occurrence should be left"),
    };
    assert_eq!("1 2 #c$", session.template);
    assert_eq!(2, session.resolved_count);
    let session = feed_chars(session, "3");
    match submit(session) {
        SessionStep::Done(cmd) => assert_eq!("1 2 3", cmd),
        _ => panic!("the session should finish"),
    }
}
