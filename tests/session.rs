use serial_term::session::{Action, Event, Failure, Phase, Session, FAILURE_EXIT_CODE};

#[test]
fn open_failure_without_follow_exits_with_one() {
    let mut s = Session::new(false, false);
    assert!(matches!(s.start(), Action::Open));
    let a = s.step(Event::OpenFailed);
    assert!(matches!(a, Action::Exit { failure: Failure::Open, code: 1 }));
    assert_eq!(s.phase, Phase::Terminated);
    assert_eq!(s.failure, Some(Failure::Open));
    assert_eq!(FAILURE_EXIT_CODE, 1);
}

#[test]
fn open_failure_with_follow_pauses_then_reopens() {
    let mut s = Session::new(true, false);
    for _ in 0..5 {
        assert!(matches!(s.step(Event::OpenFailed), Action::Pause));
        assert_eq!(s.phase, Phase::Waiting);
        assert!(matches!(s.step(Event::Waited), Action::Open));
        assert_eq!(s.phase, Phase::Connecting);
    }
    assert_eq!(s.failure, None);
}

#[test]
fn timeout_keeps_streaming() {
    let mut s = Session::new(false, false);
    assert!(matches!(s.step(Event::Opened), Action::BeginSession));
    for _ in 0..3 {
        assert!(matches!(s.step(Event::TimedOut), Action::Read));
        assert_eq!(s.phase, Phase::Streaming);
    }
}

#[test]
fn data_is_emitted_and_logged() {
    let mut s = Session::new(false, true);
    s.step(Event::Opened);
    match s.step(Event::Data(vec![1, 2, 3])) {
        Action::Emit { bytes, log } => {
            assert_eq!(bytes, vec![1, 2, 3]);
            assert!(log);
        }
        other => panic!("unexpected {:?}", other),
    }
    match s.step(Event::Data(vec![])) {
        Action::Emit { bytes, log } => {
            assert!(bytes.is_empty());
            assert!(log);
        }
        other => panic!("unexpected {:?}", other),
    }
}

#[test]
fn data_without_log_file() {
    let mut s = Session::new(true, false);
    s.step(Event::Opened);
    assert!(matches!(s.step(Event::Data(vec![9])), Action::Emit { log: false, .. }));
}

#[test]
fn read_failure_without_follow_exits() {
    let mut s = Session::new(false, false);
    s.step(Event::Opened);
    let a = s.step(Event::ReadFailed);
    assert!(matches!(a, Action::Exit { failure: Failure::Read, code: 1 }));
    assert_eq!(s.phase, Phase::Terminated);
}

#[test]
fn read_failure_with_follow_reconnects() {
    let mut s = Session::new(true, true);
    s.step(Event::Opened);
    assert!(matches!(s.step(Event::ReadFailed), Action::Pause));
    assert!(matches!(s.step(Event::Waited), Action::Open));
    assert!(matches!(s.step(Event::Opened), Action::BeginSession));
    assert_eq!(s.phase, Phase::Streaming);
}

#[test]
fn stray_event_changes_nothing() {
    let mut s = Session::new(false, false);
    assert!(matches!(s.step(Event::TimedOut), Action::Open));
    assert_eq!(s.phase, Phase::Connecting);
    s.step(Event::OpenFailed);
    let a = s.step(Event::Opened);
    assert!(matches!(a, Action::Exit { failure: Failure::Open, code: 1 }));
    assert_eq!(s.phase, Phase::Terminated);
}

#[test]
fn log_receives_what_output_receives() {
    let mut s = Session::new(true, true);
    let events = vec![
        Event::Opened,
        Event::Data(b"ab".to_vec()),
        Event::TimedOut,
        Event::Data(b"c".to_vec()),
        Event::ReadFailed,
        Event::Waited,
        Event::OpenFailed,
        Event::Waited,
        Event::Opened,
        Event::Data(b"de".to_vec()),
    ];
    let mut shown = Vec::new();
    let mut logged = Vec::new();
    for e in events {
        if let Action::Emit { bytes, log } = s.step(e) {
            shown.extend_from_slice(&bytes);
            if log {
                logged.extend_from_slice(&bytes);
            }
        }
    }
    assert_eq!(shown, b"abcde".to_vec());
    assert_eq!(logged, shown);
}
