//! The client's side of a session: what it sends, how it takes what comes back, and when
//! it reconnects or gives up.
use std::collections::HashMap;

use vstd::prelude::*;

use crate::bytes::to_vec;
use crate::protocol::{
    Envelope, Heartbeat, HeartbeatValue, Payload, PayloadValue, SessionOpen, SessionOpenValue,
    TerminalResize,
};
use crate::session::{acked, received, SessionState};
use crate::text::texts;

verus! {

// ---------------------------------------------------------------------------
// Opening the session on a connection
// ---------------------------------------------------------------------------

/// What a client asks for when it opens its session.
#[derive(Debug)]
pub struct Request {
    /// The `-R` specifications.
    pub reverse_forwards: Vec<String>,
    /// Whether reverse forwards listen on all interfaces.
    pub gateway_ports: bool,
    /// Whether X11 is forwarded.
    pub x11_enabled: bool,
    /// The X11 authentication protocol.
    pub x11_auth_proto: String,
    /// The X11 authentication cookie.
    pub x11_auth_cookie: Vec<u8>,
}

/// A copy of a list of strings.
fn copy_strings(v: &Vec<String>) -> (r: Vec<String>)
    ensures
        texts(r@) == texts(v@),
{
    let mut r: Vec<String> = Vec::new();
    assert(texts(v@).take(0) =~= Seq::empty());
    assert(texts(r@) =~= Seq::empty());
    for i in 0..v.len()
        invariant
            texts(r@) == texts(v@).take(i as int),
    {
        let s = v[i].clone();
        proof {
            crate::text::lemma_texts_push(r@, s);
        }
        r.push(s);
        assert(texts(r@) =~= texts(v@).take(i + 1));
    }
    assert(texts(v@).take(v@.len() as int) =~= texts(v@));
    r
}

/// The message that opens the session, with what the client has received so far.
pub fn session_open(session: &SessionState, request: &Request) -> (r: Envelope)
    ensures
        r@ == Some(
            PayloadValue::SessionOpen(
                SessionOpenValue {
                    session_id: session.session_id@,
                    passkey: session.passkey@,
                    last_received_seq: received(session.streams@),
                    reverse_forwards: texts(request.reverse_forwards@),
                    gateway_ports: request.gateway_ports,
                    x11_enabled: request.x11_enabled,
                    x11_auth_proto: request.x11_auth_proto@,
                    x11_auth_cookie: request.x11_auth_cookie@,
                },
            ),
        ),
{
    let open = SessionOpen {
        session_id: to_vec(session.session_id.as_slice()),
        passkey: session.passkey.clone(),
        last_received_seq: session.last_received_map(),
        reverse_forwards: copy_strings(&request.reverse_forwards),
        gateway_ports: request.gateway_ports,
        x11_enabled: request.x11_enabled,
        x11_auth_proto: request.x11_auth_proto.clone(),
        x11_auth_cookie: to_vec(request.x11_auth_cookie.as_slice()),
    };
    Envelope { payload: Some(Payload::SessionOpen(open)) }
}

/// Why a session is not accepted.
#[derive(Debug, Clone, Copy, PartialEq, Eq, Structural)]
pub enum AcceptError {
    /// The answer is another message than a `SessionAccept`.
    Unexpected,
    /// The control stream closed before an answer.
    Closed,
}

impl AcceptError {
    /// The message for this error.
    pub fn message(self) -> (r: &'static str)
        ensures
            r@ == (match self {
                AcceptError::Unexpected => "expected SessionAccept"@,
                AcceptError::Closed => "control stream closed before SessionAccept"@,
            }),
    {
        match self {
            AcceptError::Unexpected => "expected SessionAccept",
            AcceptError::Closed => "control stream closed before SessionAccept",
        }
    }
}

/// What the server has received, from its answer to a `SessionOpen`; `None` stands for a
/// stream that closed.
pub fn accepted(answer: Option<Envelope>) -> (r: Result<HashMap<u32, u64>, AcceptError>)
    ensures
        match answer {
            None => r matches Err(e) && e == AcceptError::Closed,
            Some(env) => match env@ {
                Some(PayloadValue::SessionAccept(sa)) => r matches Ok(m) && m@
                    == sa.last_received_seq,
                _ => r matches Err(e) && e == AcceptError::Unexpected,
            },
        },
{
    match answer {
        None => Err(AcceptError::Closed),
        Some(env) => match env.payload {
            Some(Payload::SessionAccept(sa)) => Ok(sa.last_received_seq),
            _ => Err(AcceptError::Unexpected),
        },
    }
}

// ---------------------------------------------------------------------------
// During the session
// ---------------------------------------------------------------------------

/// The heartbeat with what has been received so far.
pub fn heartbeat(session: &SessionState) -> (r: Envelope)
    ensures
        r@ == Some(
            PayloadValue::Heartbeat(HeartbeatValue { last_received_seq: received(session.streams@) }),
        ),
{
    Envelope {
        payload: Some(
            Payload::Heartbeat(Heartbeat { last_received_seq: session.last_received_map() }),
        ),
    }
}

/// The message for a new size of the terminal.
pub fn resize(cols: u16, rows: u16) -> (r: Envelope)
    ensures
        r@ == Some(
            PayloadValue::TerminalResize(
                TerminalResize { rows: rows as u32, cols: cols as u32 },
            ),
        ),
{
    Envelope {
        payload: Some(
            Payload::TerminalResize(TerminalResize { rows: rows as u32, cols: cols as u32 }),
        ),
    }
}

/// Whether a control message ends the session.
pub open spec fn ends_session(p: Option<PayloadValue>) -> bool {
    p matches Some(PayloadValue::Disconnect(_))
}

/// Whether `after` is `before` when a control message has come: the acknowledgements in a
/// heartbeat are applied, and nothing else changes.
pub open spec fn controlled(
    before: SessionState,
    after: SessionState,
    p: Option<PayloadValue>,
) -> bool {
    &&& after.same_but_streams(before)
    &&& match p {
        Some(PayloadValue::Heartbeat(hb)) => acked(
            before.streams@,
            after.streams@,
            hb.last_received_seq,
        ),
        _ => after.streams@ == before.streams@,
    }
}

/// Takes a control message of the server. Returns whether it ends the session; the
/// acknowledgements in a heartbeat are applied.
pub fn on_control(session: &mut SessionState, env: Envelope) -> (r: bool)
    ensures
        r == ends_session(env@),
        controlled(*old(session), *final(session), env@),
{
    match env.payload {
        Some(Payload::Disconnect(_)) => true,
        Some(Payload::Heartbeat(hb)) => {
            session.apply_server_acks(&hb.last_received_seq);
            false
        },
        _ => false,
    }
}

/// The byte that ends the input of a program on a terminal.
pub const VEOF: u8 = 0x04;

/// What the client does with its input.
#[derive(Debug)]
pub enum InputStep {
    /// Sends these bytes.
    Send(Vec<u8>),
    /// Keeps the stream open and sends nothing more.
    Hold,
    /// Stops.
    Stop,
}

/// What the client does with what it read; `None` stands for the end of the input.
///
/// A remote command gets an end-of-input byte once, and the stream is kept open until the
/// command is done. An interactive session ends with its input.
pub fn on_input(input: Option<Vec<u8>>, has_remote_command: bool, eof_sent: bool) -> (r: InputStep)
    ensures
        match input {
            Some(b) => r matches InputStep::Send(v) && v@ == b@,
            None => if !has_remote_command {
                r matches InputStep::Stop
            } else if eof_sent {
                r matches InputStep::Hold
            } else {
                r matches InputStep::Send(v) && v@ == seq![VEOF]
            },
        },
{
    match input {
        Some(b) => InputStep::Send(b),
        None => if !has_remote_command {
            InputStep::Stop
        } else if eof_sent {
            InputStep::Hold
        } else {
            let mut v: Vec<u8> = Vec::new();
            v.push(VEOF);
            assert(v@ =~= seq![VEOF]);
            InputStep::Send(v)
        },
    }
}

/// Which part of a running session came to its end first, and how.
#[derive(Debug, Clone, Copy, PartialEq, Eq, Structural)]
pub enum SessionPart {
    /// The server said that the session is over.
    Disconnected,
    /// The control stream was closed.
    ControlClosed,
    /// The control stream failed.
    ControlFailed,
    /// The input ended.
    Input,
    /// The terminal stream was closed.
    TerminalClosed,
    /// The terminal stream failed.
    TerminalFailed,
    /// A local part (sending control messages, watching the size, writing output) stopped.
    Local,
}

/// Whether a session that a part ended is over, as opposed to lost. `None` where the
/// session goes on: the input of a remote command may end before the command does.
pub fn session_over(part: SessionPart, has_remote_command: bool) -> (r: Option<bool>)
    ensures
        r == (match part {
            SessionPart::ControlFailed => Some(false),
            SessionPart::TerminalFailed => Some(false),
            SessionPart::Input => if has_remote_command {
                None
            } else {
                Some(true)
            },
            _ => Some(true),
        }),
{
    match part {
        SessionPart::ControlFailed => Some(false),
        SessionPart::TerminalFailed => Some(false),
        SessionPart::Input => if has_remote_command {
            None
        } else {
            Some(true)
        },
        _ => Some(true),
    }
}

// ---------------------------------------------------------------------------
// Connecting and reconnecting
// ---------------------------------------------------------------------------

/// How long the client waits before it reconnects, in seconds.
pub const RECONNECT_DELAY_SECS: u64 = 2;

/// How long the client waits for a connection, in seconds.
pub const CONNECT_TIMEOUT_SECS: u64 = 15;

/// How often a heartbeat is sent, in seconds.
pub const HEARTBEAT_SECS: u64 = 5;

/// Where the client is.
#[derive(Debug, Clone, Copy, PartialEq, Eq, Structural)]
pub enum Phase {
    /// It waits for a connection.
    Connecting,
    /// It waits before it reconnects.
    Waiting,
    /// It is about to switch the terminal to raw mode.
    EnteringRaw,
    /// It runs a session.
    InSession,
    /// It is done.
    Over,
}

/// What happens to the client.
#[derive(Debug, Clone, Copy, PartialEq, Eq, Structural)]
pub enum Event {
    /// The delay before a reconnection is over.
    DelayOver,
    /// The user typed the escape sequence.
    Escape,
    /// A connection could not be made.
    ConnectFailed,
    /// A connection took too long.
    ConnectTimedOut,
    /// A connection was made.
    Connected,
    /// The terminal is in raw mode.
    RawEntered,
    /// There is no terminal to switch.
    RawRefused,
    /// The session is over.
    SessionOver,
    /// The session was lost.
    SessionLost,
}

/// What the client does next.
#[derive(Debug, Clone, Copy, PartialEq, Eq, Structural)]
pub enum Action {
    /// Connects.
    Connect,
    /// Waits, then connects again.
    Wait,
    /// Switches the terminal to raw mode.
    EnterRaw,
    /// Runs the session.
    RunSession,
    /// Ends the program.
    Quit {
        /// Whether the program reports success.
        success: bool,
        /// Whether to put the terminal back in order, and then whether to reset the screen.
        restore: Option<bool>,
    },
}

/// The client, as far as connecting goes.
#[derive(Debug, Clone, Copy, PartialEq, Eq, Structural)]
pub struct ConnectionLoop {
    /// Whether a remote command runs, as opposed to a shell.
    pub has_remote_command: bool,
    /// Whether the terminal has been switched to raw mode.
    pub in_raw: bool,
    /// Where the client is.
    pub phase: Phase,
}

/// Whether an event can happen in a phase.
pub open spec fn can_happen(phase: Phase, event: Event) -> bool {
    match event {
        Event::DelayOver => phase == Phase::Waiting,
        Event::Escape => phase == Phase::Waiting || phase == Phase::Connecting || phase
            == Phase::InSession,
        Event::ConnectFailed => phase == Phase::Connecting,
        Event::ConnectTimedOut => phase == Phase::Connecting,
        Event::Connected => phase == Phase::Connecting,
        Event::RawEntered => phase == Phase::EnteringRaw,
        Event::RawRefused => phase == Phase::EnteringRaw,
        Event::SessionOver => phase == Phase::InSession,
        Event::SessionLost => phase == Phase::InSession,
    }
}

/// The client and what it does after an event.
pub open spec fn next(c: ConnectionLoop, event: Event) -> (ConnectionLoop, Action) {
    let over = ConnectionLoop { phase: Phase::Over, ..c };
    let waiting = ConnectionLoop { phase: Phase::Waiting, ..c };
    let dirty = if c.in_raw {
        Some(true)
    } else {
        None
    };
    let clean = if c.in_raw {
        Some(false)
    } else {
        None
    };
    match event {
        Event::DelayOver => (ConnectionLoop { phase: Phase::Connecting, ..c }, Action::Connect),
        Event::Escape => (over, Action::Quit { success: true, restore: dirty }),
        Event::ConnectFailed | Event::ConnectTimedOut => if c.has_remote_command {
            (over, Action::Quit { success: false, restore: None })
        } else {
            (waiting, Action::Wait)
        },
        Event::Connected => (ConnectionLoop { phase: Phase::EnteringRaw, ..c }, Action::EnterRaw),
        Event::RawEntered => (
            ConnectionLoop { phase: Phase::InSession, in_raw: true, ..c },
            Action::RunSession,
        ),
        Event::RawRefused => if c.has_remote_command {
            (ConnectionLoop { phase: Phase::InSession, ..c }, Action::RunSession)
        } else {
            (over, Action::Quit { success: false, restore: None })
        },
        Event::SessionOver => (over, Action::Quit { success: true, restore: clean }),
        Event::SessionLost => if c.has_remote_command {
            (over, Action::Quit { success: false, restore: dirty })
        } else {
            (waiting, Action::Wait)
        },
    }
}

impl ConnectionLoop {
    /// The client at the start: it connects at once.
    pub fn new(has_remote_command: bool) -> (r: Self)
        ensures
            r == (ConnectionLoop { has_remote_command, in_raw: false, phase: Phase::Connecting }),
    {
        ConnectionLoop { has_remote_command, in_raw: false, phase: Phase::Connecting }
    }

    /// Whether the event can happen where the client is.
    pub fn expects(&self, event: Event) -> (r: bool)
        ensures
            r == can_happen(self.phase, event),
    {
        match event {
            Event::DelayOver => self.phase == Phase::Waiting,
            Event::Escape => self.phase == Phase::Waiting || self.phase == Phase::Connecting
                || self.phase == Phase::InSession,
            Event::ConnectFailed | Event::ConnectTimedOut | Event::Connected => self.phase
                == Phase::Connecting,
            Event::RawEntered | Event::RawRefused => self.phase == Phase::EnteringRaw,
            Event::SessionOver | Event::SessionLost => self.phase == Phase::InSession,
        }
    }

    /// What the client does after an event.
    pub fn step(&mut self, event: Event) -> (r: Action)
        requires
            can_happen(old(self).phase, event),
        ensures
            next(*old(self), event) == (*final(self), r),
    {
        let dirty = if self.in_raw {
            Some(true)
        } else {
            None
        };
        let clean = if self.in_raw {
            Some(false)
        } else {
            None
        };
        match event {
            Event::DelayOver => {
                self.phase = Phase::Connecting;
                Action::Connect
            },
            Event::Escape => {
                self.phase = Phase::Over;
                Action::Quit { success: true, restore: dirty }
            },
            Event::ConnectFailed | Event::ConnectTimedOut => {
                if self.has_remote_command {
                    self.phase = Phase::Over;
                    Action::Quit { success: false, restore: None }
                } else {
                    self.phase = Phase::Waiting;
                    Action::Wait
                }
            },
            Event::Connected => {
                self.phase = Phase::EnteringRaw;
                Action::EnterRaw
            },
            Event::RawEntered => {
                self.phase = Phase::InSession;
                self.in_raw = true;
                Action::RunSession
            },
            Event::RawRefused => {
                if self.has_remote_command {
                    self.phase = Phase::InSession;
                    Action::RunSession
                } else {
                    self.phase = Phase::Over;
                    Action::Quit { success: false, restore: None }
                }
            },
            Event::SessionOver => {
                self.phase = Phase::Over;
                Action::Quit { success: true, restore: clean }
            },
            Event::SessionLost => {
                if self.has_remote_command {
                    self.phase = Phase::Over;
                    Action::Quit { success: false, restore: dirty }
                } else {
                    self.phase = Phase::Waiting;
                    Action::Wait
                }
            },
        }
    }
}

/// Whether a client can have come to this state: with a remote command the terminal is in
/// raw mode only during the session and after it.
pub open spec fn reachable(c: ConnectionLoop) -> bool {
    &&& c.has_remote_command && c.in_raw ==> c.phase == Phase::InSession || c.phase == Phase::Over
    &&& c.has_remote_command ==> c.phase != Phase::Waiting
}

/// Every client starts in a reachable state and stays in reachable ones; what it runs does
/// not change, and raw mode is not left but by quitting.
pub proof fn law_stays_reachable(c: ConnectionLoop, event: Event)
    requires
        reachable(c),
        can_happen(c.phase, event),
    ensures
        reachable(next(c, event).0),
        next(c, event).0.has_remote_command == c.has_remote_command,
        c.in_raw ==> next(c, event).0.in_raw,
        reachable(
            ConnectionLoop {
                has_remote_command: c.has_remote_command,
                in_raw: false,
                phase: Phase::Connecting,
            },
        ),
{
}

/// A remote command is never run a second time: the client does not reconnect for it.
pub proof fn law_command_never_reconnects(c: ConnectionLoop, event: Event)
    requires
        reachable(c),
        can_happen(c.phase, event),
        c.has_remote_command,
    ensures
        next(c, event).1 != Action::Wait,
        next(c, event).1 != Action::Connect,
{
}

/// An interactive client that loses its connection, or cannot make one, goes on trying.
pub proof fn law_shell_always_reconnects(c: ConnectionLoop, event: Event)
    requires
        can_happen(c.phase, event),
        !c.has_remote_command,
        event == Event::ConnectFailed || event == Event::ConnectTimedOut || event
            == Event::SessionLost,
    ensures
        next(c, event).1 == Action::Wait,
        next(next(c, event).0, Event::DelayOver).1 == Action::Connect,
        can_happen(next(c, event).0.phase, Event::DelayOver),
{
}

/// A client that quits puts the terminal back in order if and only if it was changed, and
/// leaves the screen alone if and only if the session came to its own end.
pub proof fn law_quit_restores_terminal(c: ConnectionLoop, event: Event)
    requires
        reachable(c),
        can_happen(c.phase, event),
    ensures
        next(c, event).1 matches Action::Quit { success, restore } ==> {
            &&& event != Event::RawRefused ==> (restore is Some <==> c.in_raw)
            &&& restore matches Some(screen) ==> screen == (event != Event::SessionOver)
        },
{
}

/// The exit status tells how it ended: a client that quits reports success if and only if the
/// session came to its own end or the user asked to quit, for a shell as for a remote command.
pub proof fn law_exit_status(c: ConnectionLoop, event: Event)
    ensures
        next(c, event).1 matches Action::Quit { success, restore: _ } ==> (success <==> event
            == Event::SessionOver || event == Event::Escape),
{
}

/// A client quits where the session came to its own end or the user asked for it; for a remote
/// command also where the connection fails or is lost; for a shell also where there is no
/// terminal. It quits nowhere else.
pub proof fn law_quits_exactly(c: ConnectionLoop, event: Event)
    ensures
        next(c, event).1 is Quit <==> {
            ||| event == Event::SessionOver
            ||| event == Event::Escape
            ||| c.has_remote_command && (event == Event::ConnectFailed || event
                == Event::ConnectTimedOut || event == Event::SessionLost)
            ||| !c.has_remote_command && event == Event::RawRefused
        },
{
}

/// A session runs once there is a connection and the terminal was switched to raw mode, or,
/// for a remote command, was found not to be there; and then at once.
pub proof fn law_session_needs_connection(c: ConnectionLoop, event: Event)
    ensures
        next(c, event).1 == Action::EnterRaw <==> event == Event::Connected,
        next(c, event).1 == Action::RunSession <==> event == Event::RawEntered || (event
            == Event::RawRefused && c.has_remote_command),
        next(c, event).1 == Action::Connect <==> event == Event::DelayOver,
        next(c, event).0.in_raw <==> c.in_raw || event == Event::RawEntered,
        next(c, event).0.has_remote_command == c.has_remote_command,
{
}

/// The client is where its last action puts it, so that what can happen next is what that
/// action leads to.
pub proof fn law_phase_follows_action(c: ConnectionLoop, event: Event)
    ensures
        next(c, event).0.phase == (match next(c, event).1 {
            Action::Connect => Phase::Connecting,
            Action::Wait => Phase::Waiting,
            Action::EnterRaw => Phase::EnteringRaw,
            Action::RunSession => Phase::InSession,
            Action::Quit { .. } => Phase::Over,
        }),
{
}

/// The user can quit wherever the client waits for something from outside, and the terminal is
/// put back in order, with its screen, if it was changed.
pub proof fn law_escape_always_quits(c: ConnectionLoop)
    ensures
        c.phase == Phase::Connecting || c.phase == Phase::Waiting || c.phase == Phase::InSession
            ==> can_happen(c.phase, Event::Escape),
        next(c, Event::Escape).1 == (Action::Quit {
            success: true,
            restore: if c.in_raw {
                Some(true)
            } else {
                None
            },
        }),
{
}

/// Typed bytes are sent as they are. The end of the input ends a shell; a remote command gets
/// one end-of-input byte, and after it nothing while it goes on.
pub proof fn law_input(input: Option<Vec<u8>>, command: bool, eof_sent: bool, r: InputStep)
    requires
        call_ensures(on_input, (input, command, eof_sent), r),
    ensures
        input matches Some(b) ==> (r matches InputStep::Send(v) && v@ == b@),
        input is None && !command ==> r is Stop,
        input is None && command && !eof_sent ==> (r matches InputStep::Send(v) && v@ == seq![
            4u8,
        ]),
        input is None && command && eof_sent ==> r is Hold,
{
}

/// A session is lost only where a stream fails; the end of the input is the end of a shell and
/// not of a remote command; everything else that stops is the session's own end.
pub proof fn law_session_end(part: SessionPart, command: bool, r: Option<bool>)
    requires
        call_ensures(session_over, (part, command), r),
    ensures
        r == Some(false) <==> part == SessionPart::ControlFailed || part
            == SessionPart::TerminalFailed,
        r is None <==> part == SessionPart::Input && command,
{
}

/// Only an acceptance is accepted, and what it says the server has received is what counts.
pub proof fn law_only_acceptance(
    answer: Option<Envelope>,
    r: Result<HashMap<u32,
    u64>,
    AcceptError>,
)
    requires
        call_ensures(accepted, (answer,), r),
    ensures
        r is Ok <==> (answer matches Some(env) && env@ matches Some(
            PayloadValue::SessionAccept(_),
        )),
        answer matches Some(env) ==> (env@ matches Some(PayloadValue::SessionAccept(sa)) ==> (
        r matches Ok(m) && m@ == sa.last_received_seq)),
{
}

/// A lost connection is noticed and made anew in time: there are at least two heartbeats while
/// a connection is awaited, and the client waits two seconds before it connects again.
pub proof fn law_times()
    ensures
        2 * HEARTBEAT_SECS <= CONNECT_TIMEOUT_SECS,
        HEARTBEAT_SECS == 5,
        RECONNECT_DELAY_SECS == 2,
        CONNECT_TIMEOUT_SECS == 15,
{
}

} // verus!
