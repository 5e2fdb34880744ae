use std::collections::HashMap;

use etr::client::{
    accepted, heartbeat, on_control, on_input, resize, session_open, session_over, AcceptError,
    Action, ConnectionLoop, Event, InputStep, Phase, Request, SessionPart,
};
use etr::protocol::{
    Disconnect, Envelope, Heartbeat, Payload, SessionAccept, TerminalResize,
};
use etr::session::SessionState;

fn session() -> SessionState {
    SessionState::new([4; 16], "pk".into())
}

fn envelope(p: Payload) -> Envelope {
    Envelope { payload: Some(p) }
}

#[test]
fn the_session_is_opened_with_what_was_received() {
    let mut s = session();
    s.terminal_received(9);
    let request = Request {
        reverse_forwards: vec!["1:a:2".into()],
        gateway_ports: true,
        x11_enabled: false,
        x11_auth_proto: "P".into(),
        x11_auth_cookie: vec![1],
    };
    let Some(Payload::SessionOpen(so)) = session_open(&s, &request).payload else {
        panic!("not a session opening");
    };
    assert_eq!(so.session_id, vec![4; 16]);
    assert_eq!(so.passkey, "pk");
    assert_eq!(so.last_received_seq, HashMap::from([(0, 9)]));
    assert_eq!(so.reverse_forwards, vec!["1:a:2"]);
    assert!(so.gateway_ports && !so.x11_enabled);
    assert_eq!((so.x11_auth_proto.as_str(), so.x11_auth_cookie), ("P", vec![1]));
    let Some(Payload::Heartbeat(hb)) = heartbeat(&s).payload else {
        panic!("not a heartbeat");
    };
    assert_eq!(hb.last_received_seq, HashMap::from([(0, 9)]));
}

#[test]
fn only_an_acceptance_is_accepted() {
    let acks = HashMap::from([(0, 3)]);
    let sa = SessionAccept { last_received_seq: acks.clone() };
    assert_eq!(accepted(Some(envelope(Payload::SessionAccept(sa)))), Ok(acks));
    let other = envelope(Payload::Disconnect(Disconnect {}));
    assert_eq!(accepted(Some(other)), Err(AcceptError::Unexpected));
    assert_eq!(accepted(None), Err(AcceptError::Closed));
    assert_eq!(AcceptError::Unexpected.message(), "expected SessionAccept");
    assert_eq!(
        AcceptError::Closed.message(),
        "control stream closed before SessionAccept"
    );
}

#[test]
fn control_messages_of_the_server() {
    let mut s = session();
    s.send_terminal(b"a");
    s.send_terminal(b"b");
    let hb = Heartbeat { last_received_seq: HashMap::from([(0, 1)]) };
    assert!(!on_control(&mut s, envelope(Payload::Heartbeat(hb))));
    assert_eq!(s.stream(0).unwrap().send_history.len(), 1);
    assert!(!on_control(&mut s, Envelope { payload: None }));
    assert!(on_control(&mut s, envelope(Payload::Disconnect(Disconnect {}))));
    assert_eq!(
        resize(80, 24),
        envelope(Payload::TerminalResize(TerminalResize { rows: 24, cols: 80 }))
    );
}

#[test]
fn the_end_of_the_input() {
    assert!(matches!(on_input(Some(vec![1]), true, true), InputStep::Send(b) if b == vec![1]));
    assert!(matches!(on_input(None, true, false), InputStep::Send(b) if b == vec![4]));
    assert!(matches!(on_input(None, true, true), InputStep::Hold));
    assert!(matches!(on_input(None, false, false), InputStep::Stop));
}

#[test]
fn how_sessions_end() {
    assert_eq!(session_over(SessionPart::Disconnected, true), Some(true));
    assert_eq!(session_over(SessionPart::ControlClosed, false), Some(true));
    assert_eq!(session_over(SessionPart::ControlFailed, false), Some(false));
    assert_eq!(session_over(SessionPart::TerminalFailed, true), Some(false));
    assert_eq!(session_over(SessionPart::Input, true), None);
    assert_eq!(session_over(SessionPart::Input, false), Some(true));
}

#[test]
fn an_interactive_client_reconnects() {
    let mut c = ConnectionLoop::new(false);
    assert_eq!(c.phase, Phase::Connecting);
    assert_eq!(c.step(Event::ConnectFailed), Action::Wait);
    assert_eq!(c.step(Event::DelayOver), Action::Connect);
    assert_eq!(c.step(Event::ConnectTimedOut), Action::Wait);
    assert_eq!(c.step(Event::DelayOver), Action::Connect);
    assert_eq!(c.step(Event::Connected), Action::EnterRaw);
    assert_eq!(c.step(Event::RawEntered), Action::RunSession);
    assert_eq!(c.step(Event::SessionLost), Action::Wait);
    let quit = Action::Quit { success: true, restore: Some(true) };
    assert_eq!(c.step(Event::Escape), quit);
}

#[test]
fn a_command_does_not_reconnect() {
    let mut c = ConnectionLoop::new(true);
    let failed = Action::Quit { success: false, restore: None };
    assert_eq!(c.step(Event::ConnectFailed), failed);

    let mut c = ConnectionLoop::new(true);
    c.step(Event::Connected);
    assert_eq!(c.step(Event::RawRefused), Action::RunSession);
    assert_eq!(c.step(Event::SessionLost), failed);

    let mut c = ConnectionLoop::new(true);
    c.step(Event::Connected);
    c.step(Event::RawEntered);
    let done = Action::Quit { success: true, restore: Some(false) };
    assert_eq!(c.step(Event::SessionOver), done);
}

#[test]
fn a_shell_needs_a_terminal() {
    let mut c = ConnectionLoop::new(false);
    c.step(Event::Connected);
    assert_eq!(c.step(Event::RawRefused), Action::Quit { success: false, restore: None });
}

#[test]
fn events_belong_to_phases() {
    let mut c = ConnectionLoop::new(false);
    assert!(c.expects(Event::Connected));
    assert!(c.expects(Event::Escape));
    assert!(!c.expects(Event::DelayOver));
    assert!(!c.expects(Event::SessionOver));
    c.step(Event::Connected);
    assert!(c.expects(Event::RawRefused));
    assert!(!c.expects(Event::Escape));
    c.step(Event::RawEntered);
    assert!(c.expects(Event::SessionLost));
    c.step(Event::SessionLost);
    assert!(c.expects(Event::DelayOver));
}
