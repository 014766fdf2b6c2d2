use rssh_win::config::AuthModes;
use rssh_win::config::Session;
use rssh_win::connect::connect_address;
use rssh_win::connect::resolve_username;
use rssh_win::errors::ErrorKind;
use rssh_win::errors::SessionError;
use rssh_win::machine::SessionEvent;
use rssh_win::machine::SessionState;
use rssh_win::machine::advance;
use rssh_win::registry::SessionRegistry;
use rssh_win::relay::EndReason;
use rssh_win::relay::ReadEvent;
use rssh_win::relay::RelayMessage;
use rssh_win::relay::relay_run;

fn chunk(text: &str) -> RelayMessage {
    RelayMessage::Chunk(String::from(text))
}

fn texts(msgs: &[RelayMessage]) -> Vec<String> {
    msgs.iter()
        .filter_map(|m| match m {
            RelayMessage::Chunk(t) => Some(t.clone()),
            RelayMessage::Ended(_) => None,
        })
        .collect()
}

#[test]
fn failed_spawn_registers_nothing() {
    let mut reg = SessionRegistry::new();
    let r = reg.complete_spawn(Err(SessionError::AuthError(String::from(
        "credential rejected",
    ))));
    match r {
        Err(e) => assert_eq!(e.kind(), ErrorKind::Auth),
        Ok(_) => panic!("spawn must not succeed with rejected credentials"),
    }
    assert_eq!(reg.session_count(), 0);
    let drained = reg.poll(0);
    assert!(drained.is_empty());
}

#[test]
fn poll_unknown_id_returns_empty() {
    let mut reg = SessionRegistry::new();
    assert!(reg.poll(12345).is_empty());
    assert!(!reg.is_registered(12345));
}

#[test]
fn spawn_deliver_poll_cycle() {
    let mut reg = SessionRegistry::new();
    let id = reg.complete_spawn(Ok(())).unwrap();
    assert_eq!(id, 0);
    assert!(reg.is_registered(id));
    reg.deliver(id, chunk("alpha "));
    reg.deliver(id, chunk("beta"));
    let drained = reg.poll(id);
    assert_eq!(texts(&drained), vec!["alpha ", "beta"]);
    assert!(reg.is_registered(id));
    assert!(reg.poll(id).is_empty());
}

#[test]
fn drained_end_marker_removes_session() {
    let mut reg = SessionRegistry::new();
    let id = reg.complete_spawn(Ok(())).unwrap();
    reg.deliver(id, chunk("goodbye"));
    reg.deliver(id, RelayMessage::Ended(EndReason::Closed(7)));
    let drained = reg.poll(id);
    assert_eq!(drained.len(), 2);
    assert!(matches!(&drained[1], RelayMessage::Ended(EndReason::Closed(7))));
    assert!(!reg.is_registered(id));
    assert!(reg.poll(id).is_empty());
    assert_eq!(reg.session_count(), 0);
}

#[test]
fn polled_chunks_accumulate_in_output_buffer() {
    let mut reg = SessionRegistry::new();
    let id = reg.complete_spawn(Ok(())).unwrap();
    reg.deliver(id, chunk("user@host"));
    reg.poll(id);
    reg.deliver(id, chunk(":~$ "));
    reg.poll(id);
    assert_eq!(reg.output_of(id).as_deref(), Some("user@host:~$ "));
    assert_eq!(reg.output_of(999), None);
}

#[test]
fn deliver_to_removed_session_is_dropped() {
    let mut reg = SessionRegistry::new();
    let id = reg.complete_spawn(Ok(())).unwrap();
    reg.close(id);
    reg.deliver(id, chunk("late"));
    assert!(reg.poll(id).is_empty());
    assert_eq!(reg.session_count(), 0);
}

#[test]
fn close_unknown_id_changes_nothing() {
    let mut reg = SessionRegistry::new();
    let id = reg.complete_spawn(Ok(())).unwrap();
    reg.close(77);
    assert!(reg.is_registered(id));
    assert_eq!(reg.session_count(), 1);
}

#[test]
fn two_sessions_stay_independent() {
    let mut reg = SessionRegistry::new();
    let first = reg.complete_spawn(Ok(())).unwrap();
    let second = reg.complete_spawn(Ok(())).unwrap();
    assert_ne!(first, second);
    reg.deliver(first, chunk("one-a "));
    reg.deliver(second, chunk("two-a "));
    reg.deliver(first, chunk("one-b"));
    reg.deliver(second, chunk("two-b"));
    let from_first = reg.poll(first);
    assert_eq!(texts(&from_first), vec!["one-a ", "one-b"]);
    reg.close(first);
    reg.deliver(second, chunk(" two-c"));
    let from_second = reg.poll(second);
    assert_eq!(texts(&from_second), vec!["two-a ", "two-b", " two-c"]);
    assert!(!reg.is_registered(first));
    assert!(reg.is_registered(second));
}

#[test]
fn closing_one_session_emits_nothing_for_the_other() {
    let mut reg = SessionRegistry::new();
    let first = reg.complete_spawn(Ok(())).unwrap();
    let second = reg.complete_spawn(Ok(())).unwrap();
    reg.deliver(second, chunk("kept"));
    reg.close(first);
    assert!(reg.poll(first).is_empty());
    let drained = reg.poll(second);
    assert_eq!(texts(&drained), vec!["kept"]);
}

#[test]
fn password_session_reaches_interactive_and_closes_cleanly() {
    let mut descriptor = Session::new();
    descriptor.name = String::from("lab box");
    descriptor.ip = String::from("203.0.113.5");
    descriptor.auth_method = AuthModes::PasswordAuth;
    descriptor.password = Some(String::from("SECRET-REDACTED"));
    assert_eq!(descriptor.port, 22);
    assert_eq!(connect_address(&descriptor.ip, descriptor.port), "203.0.113.5:22");
    assert_eq!(resolve_username(descriptor.username.clone()), "root");

    let mut state = SessionState::Idle;
    state = advance(state, SessionEvent::ConnectRequested);
    state = advance(state, SessionEvent::HandshakeDone);
    state = advance(state, SessionEvent::AuthAccepted);
    state = advance(state, SessionEvent::ShellStarted);
    assert_eq!(state, SessionState::Interactive);

    let mut reg = SessionRegistry::new();
    let id = reg.complete_spawn(Ok(())).unwrap();

    let events = vec![ReadEvent::Data(b"lab:~$ ".to_vec()), ReadEvent::Eof];
    let msgs = relay_run(&events, 0);
    for m in msgs {
        reg.deliver(id, m);
    }
    let drained = reg.poll(id);
    assert!(!drained.is_empty());
    assert!(matches!(&drained[0], RelayMessage::Chunk(t) if t == "lab:~$ "));
    let closed: Vec<&RelayMessage> = drained
        .iter()
        .filter(|m| matches!(m, RelayMessage::Ended(_)))
        .collect();
    assert_eq!(closed.len(), 1);
    assert!(matches!(closed[0], RelayMessage::Ended(EndReason::Closed(0))));
    assert!(!reg.is_registered(id));

    state = advance(state, SessionEvent::RemoteClosed(0));
    assert_eq!(state, SessionState::Closed(0));
}
