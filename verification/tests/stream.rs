use rssh_win::codec::decode_chunk;
use rssh_win::codec::utf8_valid;
use rssh_win::errors::ErrorKind;
use rssh_win::machine::SessionEvent;
use rssh_win::machine::SessionState;
use rssh_win::machine::advance;
use rssh_win::relay::EndReason;
use rssh_win::relay::ReadEvent;
use rssh_win::relay::RelayMessage;
use rssh_win::relay::relay_run;
use rssh_win::shell::INTERRUPT_CHAR;
use rssh_win::shell::pty_geometry;
use rssh_win::shell::pty_term_type;

fn chunk_text(msg: &RelayMessage) -> Option<&str> {
    match msg {
        RelayMessage::Chunk(text) => Some(text.as_str()),
        RelayMessage::Ended(_) => None,
    }
}

#[test]
fn ascii_chunk_decodes_unchanged() {
    let r = decode_chunk(&b"hello, world"[..]);
    assert_eq!(r.ok().as_deref(), Some("hello, world"));
}

#[test]
fn multibyte_chunk_decodes_to_characters() {
    let source = "héllo wörld — ≠ 🚀";
    let r = decode_chunk(source.as_bytes()).unwrap();
    assert_eq!(r, source);
    let two_bytes = decode_chunk(&[0xc3, 0xa9][..]).unwrap();
    assert_eq!(two_bytes.chars().count(), 1);
    assert_eq!(two_bytes, "é");
}

#[test]
fn invalid_sequences_are_refused() {
    let cases: Vec<Vec<u8>> = vec![
        vec![0xff],
        vec![0x80],
        vec![0xc3],
        vec![0xe2, 0x82],
        vec![0xc0, 0xaf],
        vec![0xe0, 0x80, 0x80],
        vec![0xed, 0xa0, 0x80],
        vec![0xf4, 0x90, 0x80, 0x80],
        vec![0x61, 0xf0, 0x28, 0x8c, 0x28],
    ];
    for bytes in cases {
        assert!(!utf8_valid(bytes.as_slice()));
        let r = decode_chunk(bytes.as_slice());
        assert!(matches!(r, Err(e) if e.kind() == ErrorKind::Encoding));
    }
}

#[test]
fn boundary_scalars_are_accepted() {
    for bytes in [
        &[0x7f][..],
        &[0xc2, 0x80][..],
        &[0xdf, 0xbf][..],
        &[0xe0, 0xa0, 0x80][..],
        &[0xed, 0x9f, 0xbf][..],
        &[0xee, 0x80, 0x80][..],
        &[0xef, 0xbf, 0xbf][..],
        &[0xf0, 0x90, 0x80, 0x80][..],
        &[0xf4, 0x8f, 0xbf, 0xbf][..],
    ] {
        assert!(utf8_valid(bytes));
        assert!(decode_chunk(bytes).is_ok());
    }
}

#[test]
fn chunks_are_delivered_in_order_and_intact() {
    let events = vec![
        ReadEvent::Data(b"first ".to_vec()),
        ReadEvent::Data(b"second ".to_vec()),
        ReadEvent::Data("thírd".as_bytes().to_vec()),
    ];
    let msgs = relay_run(&events, 0);
    assert_eq!(msgs.len(), 3);
    let joined: String = msgs.iter().map(|m| chunk_text(m).unwrap()).collect();
    assert_eq!(joined, "first second thírd");
}

#[test]
fn clean_close_yields_one_closed_marker() {
    let events = vec![ReadEvent::Data(b"bye".to_vec()), ReadEvent::Eof];
    let msgs = relay_run(&events, 42);
    assert_eq!(msgs.len(), 2);
    assert_eq!(chunk_text(&msgs[0]), Some("bye"));
    assert!(matches!(&msgs[1], RelayMessage::Ended(EndReason::Closed(42))));
}

#[test]
fn invalid_chunk_yields_single_encoding_failure() {
    let events = vec![
        ReadEvent::Data(b"ok".to_vec()),
        ReadEvent::Data(vec![0xff, 0xfe]),
        ReadEvent::Data(b"never delivered".to_vec()),
        ReadEvent::Eof,
    ];
    let msgs = relay_run(&events, 0);
    assert_eq!(msgs.len(), 2);
    assert_eq!(chunk_text(&msgs[0]), Some("ok"));
    assert!(matches!(&msgs[1], RelayMessage::Ended(EndReason::EncodingFailure)));
    let terminals = msgs
        .iter()
        .filter(|m| matches!(m, RelayMessage::Ended(_)))
        .count();
    assert_eq!(terminals, 1);
}

#[test]
fn read_failure_yields_io_marker_with_cause() {
    let events = vec![
        ReadEvent::Data(b"partial".to_vec()),
        ReadEvent::Failed(String::from("connection reset")),
    ];
    let msgs = relay_run(&events, 0);
    assert_eq!(msgs.len(), 2);
    match &msgs[1] {
        RelayMessage::Ended(EndReason::IoFailure(cause)) => {
            assert_eq!(cause, "connection reset");
        }
        other => panic!("unexpected message: {:?}", chunk_text(other)),
    }
}

#[test]
fn lifecycle_success_path() {
    let mut s = SessionState::Idle;
    s = advance(s, SessionEvent::ConnectRequested);
    assert_eq!(s, SessionState::Connecting);
    s = advance(s, SessionEvent::HandshakeDone);
    assert_eq!(s, SessionState::Authenticating);
    s = advance(s, SessionEvent::AuthAccepted);
    assert_eq!(s, SessionState::Authenticating);
    s = advance(s, SessionEvent::ShellStarted);
    assert_eq!(s, SessionState::Interactive);
    s = advance(s, SessionEvent::ChunkDelivered);
    assert_eq!(s, SessionState::Interactive);
    s = advance(s, SessionEvent::RemoteClosed(0));
    assert_eq!(s, SessionState::Closed(0));
}

#[test]
fn lifecycle_failures_carry_their_kind() {
    let connecting = SessionState::Connecting;
    assert_eq!(
        advance(connecting, SessionEvent::TransportFailed),
        SessionState::Failed(ErrorKind::Network)
    );
    assert_eq!(
        advance(connecting, SessionEvent::HandshakeFailed),
        SessionState::Failed(ErrorKind::Handshake)
    );
    let authenticating = SessionState::Authenticating;
    assert_eq!(
        advance(authenticating, SessionEvent::AuthRejected),
        SessionState::Failed(ErrorKind::Auth)
    );
    assert_eq!(
        advance(authenticating, SessionEvent::ShellFailed),
        SessionState::Failed(ErrorKind::ShellStart)
    );
    let interactive = SessionState::Interactive;
    assert_eq!(
        advance(interactive, SessionEvent::ReadFailed),
        SessionState::Failed(ErrorKind::Io)
    );
    assert_eq!(
        advance(interactive, SessionEvent::DecodeFailed),
        SessionState::Failed(ErrorKind::Encoding)
    );
}

#[test]
fn terminal_states_absorb_all_events() {
    let closed = SessionState::Closed(3);
    let failed = SessionState::Failed(ErrorKind::Auth);
    for e in [
        SessionEvent::ConnectRequested,
        SessionEvent::HandshakeDone,
        SessionEvent::AuthAccepted,
        SessionEvent::ShellStarted,
        SessionEvent::ChunkDelivered,
        SessionEvent::RemoteClosed(9),
        SessionEvent::ReadFailed,
    ] {
        assert_eq!(advance(closed, e), closed);
        assert_eq!(advance(failed, e), failed);
    }
}

#[test]
fn out_of_stage_events_are_ignored() {
    assert_eq!(advance(SessionState::Idle, SessionEvent::AuthAccepted), SessionState::Idle);
    assert_eq!(
        advance(SessionState::Connecting, SessionEvent::RemoteClosed(1)),
        SessionState::Connecting
    );
    assert_eq!(
        advance(SessionState::Interactive, SessionEvent::ConnectRequested),
        SessionState::Interactive
    );
}

#[test]
fn pty_parameters_are_fixed() {
    assert_eq!(pty_term_type(), "ansi");
    assert_eq!(INTERRUPT_CHAR, 3);
    assert_eq!(pty_geometry(), (500, 500, 500, 500));
}
