use std::collections::HashMap;

use etr::protocol::{
    Disconnect, Envelope, Heartbeat, Payload, SessionOpen, TerminalResize,
};
use etr::quic::{TAG_CONTROL, TAG_FORWARD, TAG_PTY};
use etr::server::{
    accept, check_open, disconnect, end_shell, on_control, server_step, start_reverse, stream_use,
    ControlStep, Refusal, ServerAction, ServerEvent, ShellSignal, StreamUse,
};
use etr::session::SessionState;

fn session() -> SessionState {
    SessionState::new([4; 16], "pk".into())
}

fn open(id: u8, passkey: &str) -> SessionOpen {
    SessionOpen {
        session_id: vec![id; 16],
        passkey: passkey.into(),
        last_received_seq: HashMap::from([(0, 1)]),
        reverse_forwards: vec![],
        gateway_ports: false,
        x11_enabled: false,
        x11_auth_proto: String::new(),
        x11_auth_cookie: vec![],
    }
}

fn first(so: SessionOpen) -> Option<Envelope> {
    Some(Envelope { payload: Some(Payload::SessionOpen(so)) })
}

#[test]
fn only_the_right_client_is_let_in() {
    let s = session();
    assert!(check_open(&s, TAG_CONTROL, first(open(4, "pk"))).is_ok());
    assert_eq!(check_open(&s, TAG_PTY, first(open(4, "pk"))), Err(Refusal::NotControl));
    assert_eq!(check_open(&s, TAG_CONTROL, None), Err(Refusal::NotSessionOpen));
    assert_eq!(check_open(&s, TAG_CONTROL, Some(disconnect())), Err(Refusal::NotSessionOpen));
    assert_eq!(check_open(&s, TAG_CONTROL, first(open(5, "pk"))), Err(Refusal::WrongSession));
    assert_eq!(check_open(&s, TAG_CONTROL, first(open(4, "PK"))), Err(Refusal::WrongPasskey));
}

#[test]
fn accepting_replays_what_the_client_misses() {
    let mut s = session();
    s.send_terminal(b"seen");
    s.send_terminal(b"missed");
    s.terminal_received(6);
    let (answer, replays) = accept(&mut s, &open(4, "pk"));
    let Some(Payload::SessionAccept(sa)) = answer.payload else {
        panic!("not an acceptance");
    };
    assert_eq!(sa.last_received_seq, HashMap::from([(0, 6)]));
    assert_eq!(replays, vec![(2, b"missed".to_vec())]);
    assert_eq!(s.stream(0).unwrap().send_history.len(), 1);
}

#[test]
fn reverse_forwards_start_once() {
    let specs: Vec<String> = ["1:a:2", "bad", "1:a:2", "3:b:4/udp"].map(String::from).to_vec();
    let mut running = vec![];
    let started = start_reverse(&mut running, &specs);
    assert_eq!(started.len(), 2);
    assert_eq!(started[1].to_text(), "3:b:4/udp");
    assert_eq!(running, vec!["1:a:2", "3:b:4/udp"]);
    assert!(start_reverse(&mut running, &specs).is_empty());
    assert_eq!(running.len(), 2);
}

#[test]
fn control_messages_of_the_client() {
    let mut s = session();
    s.send_terminal(b"a");
    let mut take = |p: Payload| on_control(&mut s, Envelope { payload: Some(p) });
    let tr = TerminalResize { rows: 65536 + 24, cols: 80 };
    assert_eq!(take(Payload::TerminalResize(tr)), ControlStep::Resize { rows: 24, cols: 80 });
    assert_eq!(take(Payload::Disconnect(Disconnect {})), ControlStep::End);
    let hb = Heartbeat { last_received_seq: HashMap::from([(0, 1)]) };
    assert_eq!(take(Payload::Heartbeat(hb)), ControlStep::Continue);
    assert_eq!(take(Payload::SessionOpen(open(4, "pk"))), ControlStep::Continue);
    assert!(s.stream(0).unwrap().send_history.is_empty());
}

#[test]
fn streams_are_told_apart_by_their_tags() {
    assert_eq!(stream_use(TAG_PTY, false), StreamUse::Terminal);
    assert_eq!(stream_use(TAG_PTY, true), StreamUse::Nothing);
    assert_eq!(stream_use(TAG_FORWARD, true), StreamUse::Forward);
    assert_eq!(stream_use(TAG_CONTROL, false), StreamUse::Nothing);
    assert_eq!(stream_use(9, false), StreamUse::Nothing);
}

#[test]
fn the_server_ends_when_it_should() {
    assert_eq!(server_step(ServerEvent::Incoming), ServerAction::Serve);
    assert_eq!(server_step(ServerEvent::HandshakeFailed), ServerAction::Wait);
    assert_eq!(server_step(ServerEvent::ConnectionLost), ServerAction::Wait);
    assert_eq!(server_step(ServerEvent::ShellExited), ServerAction::WaitBriefly);
    assert_eq!(server_step(ServerEvent::Signal), ServerAction::End { logout: true });
    for event in [
        ServerEvent::EndpointClosed,
        ServerEvent::WindowExpired,
        ServerEvent::ClosedCleanly,
    ] {
        assert_eq!(server_step(event), ServerAction::End { logout: true });
    }
    // The record of a shell that exited went with it.
    assert_eq!(server_step(ServerEvent::NoFarewell), ServerAction::End { logout: false });
}

#[test]
fn a_shell_that_stays_is_killed() {
    assert_eq!(end_shell(false, false), ShellSignal::HangUp);
    assert_eq!(end_shell(false, true), ShellSignal::Kill);
    assert_eq!(end_shell(true, false), ShellSignal::Nothing);
    assert_eq!(end_shell(true, true), ShellSignal::Nothing);
}
