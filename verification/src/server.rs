//! The server's side of a session: whom it lets in, what it answers, and when it ends.
use std::collections::HashMap;

use vstd::prelude::*;

use crate::client::{
    accepted, controlled, ends_session, heartbeat, resize, session_open, AcceptError, Request,
};
use crate::forward::{parsed_forward, ForwardSpec, ForwardValue};
use crate::protocol::{
    Disconnect, Envelope, Payload, PayloadValue, SessionAccept, SessionAcceptValue, SessionOpen,
    SessionOpenValue,
};
use crate::quic::{TAG_CONTROL, TAG_FORWARD, TAG_PTY};
use crate::session::history::entries;
use crate::session::{acked, received, to_replay, SessionState, StreamState};
use crate::settings::forward_values;
use crate::text::{lemma_texts_push, text_eq, texts};

verus! {

// ---------------------------------------------------------------------------
// Letting a client in
// ---------------------------------------------------------------------------

/// Why a connection is refused.
#[derive(Debug, Clone, Copy, PartialEq, Eq, Structural)]
pub enum Refusal {
    /// The first stream is not the control stream.
    NotControl,
    /// The first message cannot be read or is not a `SessionOpen`.
    NotSessionOpen,
    /// The session is another one.
    WrongSession,
    /// The passkey is wrong.
    WrongPasskey,
}

/// Whether a connection is let in: its first stream is the control stream, and its first
/// message asks for this session with the right passkey.
pub open spec fn admitted(
    session_id: Seq<u8>,
    passkey: Seq<char>,
    tag: u8,
    first: Option<Option<PayloadValue>>,
) -> Result<SessionOpenValue, Refusal> {
    if tag != TAG_CONTROL {
        Err(Refusal::NotControl)
    } else {
        match first {
            Some(Some(PayloadValue::SessionOpen(so))) => if so.session_id != session_id {
                Err(Refusal::WrongSession)
            } else if so.passkey != passkey {
                Err(Refusal::WrongPasskey)
            } else {
                Ok(so)
            },
            _ => Err(Refusal::NotSessionOpen),
        }
    }
}

/// The value of an optional envelope.
pub open spec fn opt_envelope(e: Option<Envelope>) -> Option<Option<PayloadValue>> {
    match e {
        Some(e) => Some(e@),
        None => None,
    }
}

/// Whether two byte strings are the same.
fn same_bytes(a: &[u8], b: &[u8]) -> (r: bool)
    ensures
        r == (a@ == b@),
{
    if a.len() != b.len() {
        return false;
    }
    for i in 0..a.len()
        invariant
            a@.len() == b@.len(),
            forall|j: int| 0 <= j < i ==> a@[j] == b@[j],
    {
        if a[i] != b[i] {
            return false;
        }
    }
    assert(a@ =~= b@);
    true
}

/// Checks a connection by the tag of its first stream and the first message on it (`None`
/// where that could not be read).
pub fn check_open(session: &SessionState, tag: u8, first: Option<Envelope>) -> (r: Result<
    SessionOpen,
    Refusal,
>)
    ensures
        match r {
            Ok(so) => admitted(session.session_id@, session.passkey@, tag, opt_envelope(first))
                == Ok::<SessionOpenValue, Refusal>(so@),
            Err(e) => admitted(session.session_id@, session.passkey@, tag, opt_envelope(first))
                == Err::<SessionOpenValue, Refusal>(e),
        },
{
    if tag != TAG_CONTROL {
        return Err(Refusal::NotControl);
    }
    match first {
        None => Err(Refusal::NotSessionOpen),
        Some(env) => match env.payload {
            Some(Payload::SessionOpen(so)) => {
                if !same_bytes(so.session_id.as_slice(), session.session_id.as_slice()) {
                    Err(Refusal::WrongSession)
                } else if !text_eq(so.passkey.as_str(), session.passkey.as_str()) {
                    Err(Refusal::WrongPasskey)
                } else {
                    Ok(so)
                }
            },
            _ => Err(Refusal::NotSessionOpen),
        },
    }
}

/// No connection is let in without the session's identifier and passkey.
pub proof fn law_admission_needs_passkey(
    session_id: Seq<u8>,
    passkey: Seq<char>,
    tag: u8,
    first: Option<Option<PayloadValue>>,
)
    ensures
        admitted(session_id, passkey, tag, first) matches Ok(so) ==> {
            &&& so.session_id == session_id
            &&& so.passkey == passkey
            &&& first == Some(Some(PayloadValue::SessionOpen(so)))
        },
{
}

/// The answer to a `SessionOpen`: what has been received on the streams.
pub open spec fn acceptance(streams: Map<u32, StreamState>) -> Option<PayloadValue> {
    Some(
        PayloadValue::SessionAccept(SessionAcceptValue { last_received_seq: received(streams) }),
    )
}

/// Takes the client's acknowledgements, and returns the answer to its `SessionOpen` and what
/// is to be replayed on the terminal stream.
pub fn accept(
    session: &mut SessionState,
    open: &SessionOpen,
) -> (r: (Envelope, Vec<(u64, Vec<u8>)>))
    ensures
        final(session).same_but_streams(*old(session)),
        acked(old(session).streams@, final(session).streams@, open@.last_received_seq),
        r.0@ == acceptance(old(session).streams@),
        entries(r.1@) == to_replay(old(session).streams@, open@.last_received_seq),
{
    let replays = session.resume(&open.last_received_seq);
    assert(received(session.streams@) =~= received(old(session).streams@)) by {
        assert forall|id: u32| session.streams@.contains_key(id) == old(
            session,
        ).streams@.contains_key(id) by {
            assert(session.streams@.dom().contains(id) == old(session).streams@.dom().contains(id));
        }
    }
    let answer = Envelope {
        payload: Some(
            Payload::SessionAccept(SessionAccept { last_received_seq: session.last_received_map() }),
        ),
    };
    (answer, replays)
}

// ---------------------------------------------------------------------------
// Reverse forwards
// ---------------------------------------------------------------------------

/// The reverse forwards to start and those that are then running, for the specifications
/// `specs` of a client: what runs already is not started again, and what cannot be read is
/// passed over.
pub open spec fn to_start(
    running: Seq<Seq<char>>,
    specs: Seq<Seq<char>>,
) -> (Seq<ForwardValue>, Seq<Seq<char>>)
    decreases specs.len(),
{
    if specs.len() == 0 {
        (Seq::empty(), running)
    } else {
        let (started, now) = to_start(running, specs.drop_last());
        let s = specs.last();
        match parsed_forward(s) {
            Ok(f) => if now.contains(s) {
                (started, now)
            } else {
                (started.push(f), now.push(s))
            },
            Err(_) => (started, now),
        }
    }
}

/// Whether `s` is one of `v`.
fn contains_text(v: &Vec<String>, s: &str) -> (r: bool)
    ensures
        r == texts(v@).contains(s@),
{
    for i in 0..v.len()
        invariant
            forall|j: int| 0 <= j < i ==> texts(v@)[j] != s@,
    {
        assert(texts(v@)[i as int] == v@[i as int]@);
        if text_eq(v[i].as_str(), s) {
            return true;
        }
    }
    false
}

/// Takes the reverse forwards that a client asks for, and returns those to start.
pub fn start_reverse(running: &mut Vec<String>, specs: &Vec<String>) -> (r: Vec<ForwardSpec>)
    ensures
        to_start(texts(old(running)@), texts(specs@)) == (
            forward_values(r@),
            texts(final(running)@),
        ),
{
    let ghost first = texts(running@);
    let ghost all = texts(specs@);
    let mut r: Vec<ForwardSpec> = Vec::new();
    assert(all.take(0) =~= Seq::empty());
    assert(forward_values(r@) =~= Seq::empty());
    for i in 0..specs.len()
        invariant
            first == texts(old(running)@),
            all == texts(specs@),
            to_start(first, all.take(i as int)) == (forward_values(r@), texts(running@)),
    {
        let s = specs[i].as_str();
        assert(all.take(i + 1).drop_last() =~= all.take(i as int));
        assert(all.take(i + 1).last() == s@);
        if !contains_text(running, s) {
            match ForwardSpec::parse(s) {
                Ok(f) => {
                    let name = s.to_owned();
                    proof {
                        lemma_texts_push(running@, name);
                        assert(forward_values(r@.push(f)) =~= forward_values(r@).push(f@));
                    }
                    r.push(f);
                    running.push(name);
                },
                Err(_) => {},
            }
        }
    }
    assert(all.take(all.len() as int) =~= all);
    r
}

/// A client that reconnects with the same reverse forwards starts none a second time.
pub proof fn law_reverse_started_once(running: Seq<Seq<char>>, specs: Seq<Seq<char>>)
    ensures
        to_start(to_start(running, specs).1, specs) == (
            Seq::<ForwardValue>::empty(),
            to_start(running, specs).1,
        ),
{
    let now = to_start(running, specs).1;
    lemma_all_running(running, specs);
    lemma_none_started(now, specs);
}

/// What is started, and what ran before, then runs.
proof fn lemma_all_running(running: Seq<Seq<char>>, specs: Seq<Seq<char>>)
    ensures
        forall|s: Seq<char>|
            running.contains(s) ==> #[trigger] to_start(running, specs).1.contains(s),
        forall|i: int|
            0 <= i < specs.len() && parsed_forward(#[trigger] specs[i]) is Ok ==> to_start(
                running,
                specs,
            ).1.contains(specs[i]),
    decreases specs.len(),
{
    if specs.len() > 0 {
        let init = specs.drop_last();
        lemma_all_running(running, init);
        let before = to_start(running, init).1;
        let now = to_start(running, specs).1;
        let s = specs.last();
        assert forall|t: Seq<char>| before.contains(t) implies #[trigger] now.contains(t) by {
            let k = choose|k: int| 0 <= k < before.len() && before[k] == t;
            assert(now[k] == t);
        }
        assert forall|t: Seq<char>| running.contains(t) implies #[trigger] now.contains(t) by {
            assert(before.contains(t));
        }
        assert forall|i: int|
            0 <= i < specs.len() && parsed_forward(#[trigger] specs[i]) is Ok implies now.contains(
            specs[i],
        ) by {
            if i < init.len() {
                assert(init[i] == specs[i]);
                assert(before.contains(specs[i]));
            } else if !before.contains(s) {
                assert(now[now.len() - 1] == s);
            }
        }
    }
}

proof fn lemma_none_started(running: Seq<Seq<char>>, specs: Seq<Seq<char>>)
    requires
        forall|i: int|
            0 <= i < specs.len() && parsed_forward(#[trigger] specs[i]) is Ok ==> running.contains(
                specs[i],
            ),
    ensures
        to_start(running, specs) == (Seq::<ForwardValue>::empty(), running),
    decreases specs.len(),
{
    if specs.len() > 0 {
        let init = specs.drop_last();
        assert forall|i: int|
            0 <= i < init.len() && parsed_forward(#[trigger] init[i]) is Ok implies running.contains(
            init[i],
        ) by {
            assert(init[i] == specs[i]);
        }
        lemma_none_started(running, init);
        assert(parsed_forward(specs[specs.len() - 1]) is Ok ==> running.contains(
            specs[specs.len() - 1],
        ));
    }
}

// ---------------------------------------------------------------------------
// During the session
// ---------------------------------------------------------------------------

/// What a stream that a client opens is for.
#[derive(Debug, Clone, Copy, PartialEq, Eq, Structural)]
pub enum StreamUse {
    /// The terminal.
    Terminal,
    /// A forward.
    Forward,
    /// Nothing: the stream is passed over.
    Nothing,
}

/// What the stream with the tag `tag` is for. Only the first terminal stream of a
/// connection counts.
pub fn stream_use(tag: u8, has_terminal: bool) -> (r: StreamUse)
    ensures
        r == (if tag == TAG_PTY && !has_terminal {
            StreamUse::Terminal
        } else if tag == TAG_FORWARD {
            StreamUse::Forward
        } else {
            StreamUse::Nothing
        }),
{
    if tag == TAG_PTY {
        if has_terminal {
            StreamUse::Nothing
        } else {
            StreamUse::Terminal
        }
    } else if tag == TAG_FORWARD {
        StreamUse::Forward
    } else {
        StreamUse::Nothing
    }
}

/// What a control message makes the server do.
#[derive(Debug, Clone, Copy, PartialEq, Eq, Structural)]
pub enum ControlStep {
    /// Nothing more.
    Continue,
    /// Sets the size of the terminal.
    Resize {
        /// The number of rows.
        rows: u16,
        /// The number of columns.
        cols: u16,
    },
    /// Ends the session.
    End,
}

/// What a control message makes the server do.
pub open spec fn control_step(p: Option<PayloadValue>) -> ControlStep {
    match p {
        Some(PayloadValue::TerminalResize(tr)) => ControlStep::Resize {
            rows: (tr.rows % 65536) as u16,
            cols: (tr.cols % 65536) as u16,
        },
        Some(PayloadValue::Disconnect(_)) => ControlStep::End,
        _ => ControlStep::Continue,
    }
}

/// Takes a control message of the client; the acknowledgements in a heartbeat are applied.
pub fn on_control(session: &mut SessionState, env: Envelope) -> (r: ControlStep)
    ensures
        r == control_step(env@),
        controlled(*old(session), *final(session), env@),
{
    match env.payload {
        Some(Payload::TerminalResize(tr)) => ControlStep::Resize {
            rows: (tr.rows % 65536) as u16,
            cols: (tr.cols % 65536) as u16,
        },
        Some(Payload::Disconnect(_)) => ControlStep::End,
        Some(Payload::Heartbeat(hb)) => {
            session.apply_server_acks(&hb.last_received_seq);
            ControlStep::Continue
        },
        _ => ControlStep::Continue,
    }
}

/// The message that ends the session.
pub fn disconnect() -> (r: Envelope)
    ensures
        r@ == Some(PayloadValue::Disconnect(Disconnect {  })),
{
    Envelope { payload: Some(Payload::Disconnect(Disconnect {  })) }
}

// ---------------------------------------------------------------------------
// Waiting for clients
// ---------------------------------------------------------------------------

/// How long the shell has to end after it was hung up, in seconds, before it is killed.
pub const HANG_UP_SECS: u64 = 1;

/// How long the server waits for a client after the shell has exited, in seconds, so that
/// it gets a clean end.
pub const FAREWELL_SECS: u64 = 1;

/// What happens while the server waits for a client, or serves one.
#[derive(Debug, Clone, Copy, PartialEq, Eq, Structural)]
pub enum ServerEvent {
    /// The shell has exited.
    ShellExited,
    /// No client came in time after the shell exited.
    NoFarewell,
    /// A signal asks the server to end.
    Signal,
    /// A client connects.
    Incoming,
    /// A client that connected could not be taken.
    HandshakeFailed,
    /// The endpoint is closed.
    EndpointClosed,
    /// No client came back in time.
    WindowExpired,
    /// A connection ended with a clean end of the session.
    ClosedCleanly,
    /// A connection was lost.
    ConnectionLost,
}

/// What the server does next.
#[derive(Debug, Clone, Copy, PartialEq, Eq, Structural)]
pub enum ServerAction {
    /// Waits for a client, as long as the session may wait.
    Wait,
    /// Waits for a client for a moment only.
    WaitBriefly,
    /// Serves the client.
    Serve,
    /// Ends; whether the login record is removed first.
    End {
        /// Whether the login record is removed.
        logout: bool,
    },
}

/// What the server does after an event. Where the shell has exited, its login record went
/// with it; on every other way out the server removes the record.
pub open spec fn next_action(event: ServerEvent) -> ServerAction {
    match event {
        ServerEvent::ShellExited => ServerAction::WaitBriefly,
        ServerEvent::Incoming => ServerAction::Serve,
        ServerEvent::HandshakeFailed => ServerAction::Wait,
        ServerEvent::ConnectionLost => ServerAction::Wait,
        ServerEvent::NoFarewell => ServerAction::End { logout: false },
        ServerEvent::Signal => ServerAction::End { logout: true },
        ServerEvent::EndpointClosed => ServerAction::End { logout: true },
        ServerEvent::WindowExpired => ServerAction::End { logout: true },
        ServerEvent::ClosedCleanly => ServerAction::End { logout: true },
    }
}

/// What the server does after an event.
pub fn server_step(event: ServerEvent) -> (r: ServerAction)
    ensures
        r == next_action(event),
{
    match event {
        ServerEvent::ShellExited => ServerAction::WaitBriefly,
        ServerEvent::Incoming => ServerAction::Serve,
        ServerEvent::HandshakeFailed => ServerAction::Wait,
        ServerEvent::ConnectionLost => ServerAction::Wait,
        ServerEvent::NoFarewell => ServerAction::End { logout: false },
        ServerEvent::Signal => ServerAction::End { logout: true },
        ServerEvent::EndpointClosed => ServerAction::End { logout: true },
        ServerEvent::WindowExpired => ServerAction::End { logout: true },
        ServerEvent::ClosedCleanly => ServerAction::End { logout: true },
    }
}

/// No way out leaves a login record behind: where the server ends and does not remove the
/// record, the shell has exited, and the record went with it.
pub proof fn law_every_end_logs_out(event: ServerEvent)
    ensures
        next_action(event) matches ServerAction::End { logout } ==> logout || event
            == ServerEvent::NoFarewell,
        next_action(ServerEvent::ShellExited) == ServerAction::WaitBriefly,
{
}

/// What the server sends to the processes of the shell when it ends.
#[derive(Debug, Clone, Copy, PartialEq, Eq, Structural)]
pub enum ShellSignal {
    /// Nothing: the shell has exited.
    Nothing,
    /// A hang-up.
    HangUp,
    /// The signal that nothing can ignore.
    Kill,
}

/// What the server sends to the processes of the shell on its way out: a hang-up, and where
/// that did not end the shell, the signal that does.
pub fn end_shell(exited: bool, hung_up: bool) -> (r: ShellSignal)
    ensures
        r == (if exited {
            ShellSignal::Nothing
        } else if !hung_up {
            ShellSignal::HangUp
        } else {
            ShellSignal::Kill
        }),
{
    if exited {
        ShellSignal::Nothing
    } else if !hung_up {
        ShellSignal::HangUp
    } else {
        ShellSignal::Kill
    }
}

// ---------------------------------------------------------------------------
// Laws
// ---------------------------------------------------------------------------

/// The server sets the size that the client has: what it does with the message that the client
/// sends for a size is to resize to that size.
pub proof fn law_size_reaches_terminal(cols: u16, rows: u16, env: Envelope)
    requires
        call_ensures(resize, (cols, rows), env),
    ensures
        control_step(env@) == (ControlStep::Resize { rows, cols }),
{
}

/// Only a size resizes, and only the client's farewell ends the session.
pub proof fn law_control_exactly(p: Option<PayloadValue>)
    ensures
        control_step(p) is Resize <==> p matches Some(PayloadValue::TerminalResize(_)),
        control_step(p) == ControlStep::End <==> p matches Some(PayloadValue::Disconnect(_)),
{
}

/// A client of this session is let in, and gets what it asked for: the server takes the
/// request as the client made it.
pub proof fn law_request_reaches_server(
    client: SessionState,
    request: Request,
    env: Envelope,
    server: SessionState,
)
    requires
        call_ensures(session_open, (&client, &request), env),
        server.session_id@ == client.session_id@,
        server.passkey@ == client.passkey@,
    ensures
        admitted(server.session_id@, server.passkey@, 0x01, Some(env@)) matches Ok(so) && {
            &&& so.last_received_seq == received(client.streams@)
            &&& so.reverse_forwards == texts(request.reverse_forwards@)
            &&& so.gateway_ports == request.gateway_ports
            &&& so.x11_enabled == request.x11_enabled
            &&& so.x11_auth_proto == request.x11_auth_proto@
            &&& so.x11_auth_cookie == request.x11_auth_cookie@
        },
{
}

/// A client of another session, with another passkey or on another stream, is not let in.
pub proof fn law_others_are_refused(
    client: SessionState,
    request: Request,
    env: Envelope,
    server: SessionState,
    tag: u8,
)
    requires
        call_ensures(session_open, (&client, &request), env),
        server.session_id@ != client.session_id@ || server.passkey@ != client.passkey@ || tag
            != 0x01,
    ensures
        admitted(server.session_id@, server.passkey@, tag, Some(env@)) is Err,
        admitted(server.session_id@, server.passkey@, tag, None) is Err,
{
}

/// The client learns what the server has received: that is what it takes from the answer.
pub proof fn law_acceptance_reaches_client(
    streams: Map<u32, StreamState>,
    answer: Envelope,
    r: Result<HashMap<u32, u64>, AcceptError>,
)
    requires
        answer@ == acceptance(streams),
        call_ensures(accepted, (Some(answer),), r),
    ensures
        r matches Ok(m) && m@ == received(streams),
{
}

/// A heartbeat of either side makes the other drop what was received, and only that.
pub proof fn law_heartbeat_acknowledges(
    sender: SessionState,
    env: Envelope,
    before: SessionState,
    after: SessionState,
)
    requires
        call_ensures(heartbeat, (&sender,), env),
        controlled(before, after, env@),
    ensures
        acked(before.streams@, after.streams@, received(sender.streams@)),
        after.session_id == before.session_id,
        after.passkey == before.passkey,
        !ends_session(env@),
        control_step(env@) == ControlStep::Continue,
{
}

/// Messages other than a heartbeat leave the session as it is.
pub proof fn law_only_heartbeats_acknowledge(
    before: SessionState,
    after: SessionState,
    p: Option<PayloadValue>,
)
    requires
        controlled(before, after, p),
        !(p matches Some(PayloadValue::Heartbeat(_))),
    ensures
        after.streams@ == before.streams@,
{
}

/// The server's farewell ends the client's session, and no other message does.
pub proof fn law_farewell_ends_session(env: Envelope, p: Option<PayloadValue>)
    requires
        call_ensures(disconnect, (), env),
    ensures
        ends_session(env@),
        control_step(env@) == ControlStep::End,
        ends_session(p) ==> p matches Some(PayloadValue::Disconnect(_)),
{
}

/// The first terminal stream is the terminal, and no later one; every forwarded stream is a
/// forward; nothing else is anything.
pub proof fn law_streams_by_tag(tag: u8, has_terminal: bool, r: StreamUse)
    requires
        call_ensures(stream_use, (tag, has_terminal), r),
    ensures
        r == StreamUse::Terminal <==> tag == 0x02 && !has_terminal,
        r == StreamUse::Forward <==> tag == 0x03,
{
}

/// Every reverse forward that can be read runs after a request; what is started is what was
/// asked for, can be read and did not run.
pub proof fn law_reverse_forwards_run(running: Seq<Seq<char>>, specs: Seq<Seq<char>>, i: int)
    ensures
        0 <= i < specs.len() && parsed_forward(specs[i]) is Ok ==> to_start(
            running,
            specs,
        ).1.contains(specs[i]),
        0 <= i < specs.len() && !running.contains(specs[i]) ==> (parsed_forward(specs[i]) matches Ok(
            f,
        ) ==> to_start(running, specs).0.contains(f)),
        0 <= i < to_start(running, specs).0.len() ==> exists|j: int|
            0 <= j < specs.len() && !running.contains(#[trigger] specs[j]) && parsed_forward(
                specs[j],
            ) == Ok::<ForwardValue, Seq<char>>(to_start(running, specs).0[i]),
        to_start(running, specs).1.len() == running.len() + to_start(running, specs).0.len(),
    decreases specs.len(),
{
    if specs.len() > 0 {
        let init = specs.drop_last();
        let s = specs.last();
        let (started, now) = to_start(running, init);
        let (started2, now2) = to_start(running, specs);
        law_reverse_forwards_run(running, init, i);
        lemma_all_running(running, specs);
        lemma_running_from(running, init, s);
        if 0 <= i < specs.len() {
            if parsed_forward(specs[i]) is Ok && !running.contains(specs[i]) {
                let f = parsed_forward(specs[i])->Ok_0;
                if i < init.len() {
                    assert(init[i] == specs[i]);
                    let k = choose|k: int| 0 <= k < started.len() && started[k] == f;
                    assert(started2[k] == f);
                } else if now.contains(s) {
                    let j = choose|j: int|
                        0 <= j < init.len() && #[trigger] init[j] == s && parsed_forward(init[j])
                            is Ok;
                    law_reverse_forwards_run(running, init, j);
                    let k = choose|k: int| 0 <= k < started.len() && started[k] == f;
                    assert(started2[k] == f);
                } else {
                    assert(started2[started.len() as int] == f);
                }
            }
        }
        if 0 <= i < started2.len() {
            if i < started.len() {
                let j = choose|j: int|
                    0 <= j < init.len() && !running.contains(#[trigger] init[j]) && parsed_forward(
                        init[j],
                    ) == Ok::<ForwardValue, Seq<char>>(started[i]);
                assert(specs[j] == init[j]);
                assert(started2[i] == started[i]);
            } else {
                if running.contains(s) {
                    lemma_all_running(running, init);
                    assert(now.contains(s));
                }
                assert(!running.contains(specs[specs.len() - 1]));
            }
        }
    }
}

/// What runs after a request ran before it or was asked for and could be read.
proof fn lemma_running_from(running: Seq<Seq<char>>, specs: Seq<Seq<char>>, s: Seq<char>)
    ensures
        to_start(running, specs).1.contains(s) ==> running.contains(s) || exists|j: int|
            0 <= j < specs.len() && #[trigger] specs[j] == s && parsed_forward(specs[j]) is Ok,
    decreases specs.len(),
{
    if specs.len() > 0 {
        let init = specs.drop_last();
        let (started, now) = to_start(running, init);
        let now2 = to_start(running, specs).1;
        lemma_running_from(running, init, s);
        if now2.contains(s) {
            let k = choose|k: int| 0 <= k < now2.len() && now2[k] == s;
            if k < now.len() {
                assert(now[k] == s);
                if !running.contains(s) {
                    let j = choose|j: int|
                        0 <= j < init.len() && #[trigger] init[j] == s && parsed_forward(init[j])
                            is Ok;
                    assert(specs[j] == s);
                }
            } else {
                assert(specs[specs.len() - 1] == s);
            }
        }
    }
}

/// The session outlives every connection: a client that is lost, or cannot be taken, is waited
/// for; one that comes is served; and the server ends where it was asked to, where the client
/// said farewell, where no client came back in time, and where the shell is gone.
pub proof fn law_session_outlives_connections(event: ServerEvent)
    ensures
        next_action(event) == ServerAction::Wait <==> event == ServerEvent::ConnectionLost || event
            == ServerEvent::HandshakeFailed,
        next_action(event) == ServerAction::Serve <==> event == ServerEvent::Incoming,
        next_action(event) == ServerAction::WaitBriefly <==> event == ServerEvent::ShellExited,
{
}

/// A shell that has not exited is sent a hang-up first and the signal that nothing can ignore
/// after it; one that has exited is sent nothing.
pub proof fn law_shell_is_ended(
    hung_up: bool,
    first: ShellSignal,
    second: ShellSignal,
    none: ShellSignal,
)
    requires
        call_ensures(end_shell, (false, false), first),
        call_ensures(end_shell, (false, true), second),
        call_ensures(end_shell, (true, hung_up), none),
    ensures
        first == ShellSignal::HangUp,
        second == ShellSignal::Kill,
        none == ShellSignal::Nothing,
{
}

/// The check of a connection lets in exactly the clients of this session, with its passkey, on
/// the control stream.
pub proof fn law_check_is_exact(
    client: SessionState,
    request: Request,
    env: Envelope,
    server: SessionState,
    tag: u8,
    r: Result<SessionOpen, Refusal>,
)
    requires
        call_ensures(session_open, (&client, &request), env),
        call_ensures(check_open, (&server, tag, Some(env)), r),
    ensures
        r is Ok <==> tag == 0x01 && server.session_id@ == client.session_id@ && server.passkey@
            == client.passkey@,
        r matches Ok(so) ==> so@.last_received_seq == received(client.streams@),
{
}

/// A shell that was hung up, and a client that is to say farewell, have a second each.
pub proof fn law_moments()
    ensures
        HANG_UP_SECS == 1,
        FAREWELL_SECS == 1,
{
}

} // verus!
