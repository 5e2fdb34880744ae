//! Forwarded streams: how they are opened, where they lead, and which socket a forwarded
//! datagram goes through.
use vstd::prelude::*;

use crate::forward::ForwardSpec;
use crate::protocol::{
    Envelope, ForwardProto, Payload, PayloadValue, StreamOpen, StreamOpenValue, StreamType,
    UdpDatagram,
};
use crate::text::{decimal, decimal_text, text_eq};

verus! {

// ---------------------------------------------------------------------------
// Opening streams
// ---------------------------------------------------------------------------

/// The message that opens a stream for a forward.
pub open spec fn forward_opening(
    host: Seq<char>,
    port: u16,
    proto: ForwardProto,
) -> StreamOpenValue {
    StreamOpenValue {
        stream_id: 0,
        stream_type: StreamType::PortForward.number(),
        remote_host: host,
        remote_port: port as u32,
        forward_proto: proto.number(),
    }
}

/// The message that opens a stream for the forward `spec`.
pub fn open_forward(spec: &ForwardSpec) -> (r: Envelope)
    ensures
        r@ == Some(
            PayloadValue::StreamOpen(
                forward_opening(spec@.remote_host, spec@.remote_port, spec@.proto),
            ),
        ),
{
    Envelope {
        payload: Some(
            Payload::StreamOpen(
                StreamOpen {
                    stream_id: 0,
                    stream_type: StreamType::PortForward.as_i32(),
                    remote_host: spec.remote_host.clone(),
                    remote_port: spec.remote_port as u32,
                    forward_proto: spec.proto.as_i32(),
                },
            ),
        ),
    }
}

/// The message that opens a stream for an X11 connection.
pub fn open_x11() -> (r: Envelope)
    ensures
        r@ == Some(
            PayloadValue::StreamOpen(
                StreamOpenValue {
                    stream_id: 0,
                    stream_type: StreamType::X11.number(),
                    remote_host: Seq::empty(),
                    remote_port: 0,
                    forward_proto: ForwardProto::Tcp.number(),
                },
            ),
        ),
{
    Envelope {
        payload: Some(
            Payload::StreamOpen(
                StreamOpen {
                    stream_id: 0,
                    stream_type: StreamType::X11.as_i32(),
                    remote_host: String::new(),
                    remote_port: 0,
                    forward_proto: ForwardProto::Tcp.as_i32(),
                },
            ),
        ),
    }
}

/// Where a stream leads.
#[derive(Debug)]
pub enum StreamTarget {
    /// To the local X11 display.
    X11,
    /// To a TCP address.
    Tcp(String),
    /// To a UDP address.
    Udp(String),
}

/// Where a stream leads, as a value.
pub enum TargetValue {
    /// To the local X11 display.
    X11,
    /// To a TCP address.
    Tcp(Seq<char>),
    /// To a UDP address.
    Udp(Seq<char>),
}

impl StreamTarget {
    /// The value of the target.
    pub open spec fn view(self) -> TargetValue {
        match self {
            StreamTarget::X11 => TargetValue::X11,
            StreamTarget::Tcp(a) => TargetValue::Tcp(a@),
            StreamTarget::Udp(a) => TargetValue::Udp(a@),
        }
    }
}

/// `host:port`.
pub open spec fn host_port(host: Seq<char>, port: nat) -> Seq<char> {
    host + ":"@ + decimal(port)
}

/// `host:port`.
pub fn address_text(host: &str, port: u32) -> (r: String)
    ensures
        r@ == host_port(host@, port as nat),
{
    let mut r = host.to_owned();
    r.append(":");
    r.append(decimal_text(port as u64).as_str());
    r
}

/// The protocol with this number; TCP for a number that stands for none.
pub open spec fn proto_of(n: i32) -> ForwardProto {
    if n == ForwardProto::Udp.number() {
        ForwardProto::Udp
    } else {
        ForwardProto::Tcp
    }
}

/// Where a forwarded stream leads that is not an X11 connection.
pub open spec fn forward_target(m: StreamOpenValue) -> TargetValue {
    let addr = host_port(m.remote_host, m.remote_port as nat);
    match proto_of(m.forward_proto) {
        ForwardProto::Tcp => TargetValue::Tcp(addr),
        ForwardProto::Udp => TargetValue::Udp(addr),
    }
}

/// Where a stream leads that the client opened.
pub fn server_target(m: &StreamOpen) -> (r: StreamTarget)
    ensures
        r@ == forward_target(m@),
{
    let addr = address_text(m.remote_host.as_str(), m.remote_port);
    if m.forward_proto == ForwardProto::Udp.as_i32() {
        StreamTarget::Udp(addr)
    } else {
        StreamTarget::Tcp(addr)
    }
}

/// Where a stream leads that the server opened.
pub fn client_target(m: &StreamOpen) -> (r: StreamTarget)
    ensures
        r@ == (if m@.stream_type == StreamType::X11.number() {
            TargetValue::X11
        } else {
            forward_target(m@)
        }),
{
    if m.stream_type == StreamType::X11.as_i32() {
        StreamTarget::X11
    } else {
        server_target(m)
    }
}

/// A stream leads where the forward that opened it says.
pub proof fn law_forward_reaches_target(host: Seq<char>, port: u16, proto: ForwardProto)
    ensures
        forward_target(forward_opening(host, port, proto)) == (match proto {
            ForwardProto::Tcp => TargetValue::Tcp(host_port(host, port as nat)),
            ForwardProto::Udp => TargetValue::Udp(host_port(host, port as nat)),
        }),
        forward_opening(host, port, proto).stream_type != StreamType::X11.number(),
{
}

/// The addresses that a forward listens on, each with the port.
pub fn listen_addresses(spec: &ForwardSpec, gateway: bool) -> (r: Vec<String>)
    ensures
        r@.len() == crate::forward::bind_targets(spec@.bind_address, gateway).len(),
        forall|i: int|
            0 <= i < r@.len() ==> (#[trigger] r@[i])@ == host_port(
                crate::forward::bind_targets(spec@.bind_address, gateway)[i],
                spec@.local_port as nat,
            ),
{
    let addrs = spec.get_bind_addresses(gateway);
    let ghost ts = crate::forward::bind_targets(spec@.bind_address, gateway);
    assert(crate::text::texts(addrs@).len() == ts.len());
    let mut r: Vec<String> = Vec::new();
    for i in 0..addrs.len()
        invariant
            ts == crate::text::texts(addrs@),
            r@.len() == i,
            forall|j: int|
                0 <= j < i ==> (#[trigger] r@[j])@ == host_port(ts[j], spec@.local_port as nat),
    {
        assert(ts[i as int] == addrs@[i as int]@);
        r.push(address_text(addrs[i].as_str(), spec.local_port as u32));
    }
    r
}

/// Whether a datagram needs a new stream: there is none yet, or it belongs to another
/// connection than the current one.
pub fn needs_new_stream(has_stream: bool, stream_conn: Option<u64>, conn: u64) -> (r: bool)
    ensures
        r == !(has_stream && stream_conn == Some(conn)),
{
    if !has_stream {
        true
    } else {
        match stream_conn {
            Some(c) => c != conn,
            None => true,
        }
    }
}

// ---------------------------------------------------------------------------
// Sockets of forwarded datagrams
// ---------------------------------------------------------------------------

/// How long a sender may be silent before its socket is given up, in milliseconds.
pub const SENDER_IDLE_MS: u64 = 30_000;

/// Whether a forwarded datagram says who sent it; one that does not is passed over.
pub fn has_sender(dg: &UdpDatagram) -> (r: bool)
    ensures
        r == (dg@.peer_addr.len() > 0),
{
    dg.peer_addr.as_str().unicode_len() > 0
}

/// A sender of forwarded datagrams, and its socket.
#[derive(Debug)]
pub struct Sender {
    /// The sender's address.
    pub addr: String,
    /// The sender's port.
    pub port: u32,
    /// The number of the sender's socket.
    pub slot: u64,
    /// When the sender was last heard, in milliseconds.
    pub last: u64,
}

/// The value of a sender.
pub struct SenderValue {
    /// The sender's address.
    pub addr: Seq<char>,
    /// The sender's port.
    pub port: u32,
    /// The number of the sender's socket.
    pub slot: u64,
    /// When the sender was last heard.
    pub last: u64,
}

impl Sender {
    /// The value of the sender.
    pub open spec fn view(self) -> SenderValue {
        SenderValue { addr: self.addr@, port: self.port, slot: self.slot, last: self.last }
    }
}

/// The senders of forwarded datagrams. Each has a socket of its own, so that replies find
/// the way back to it.
#[derive(Debug)]
pub struct SenderTable {
    senders: Vec<Sender>,
    next_slot: u64,
}

/// Whether a sender last heard at `last` has been silent too long at `now`.
pub open spec fn is_idle(last: u64, now: u64) -> bool {
    now - last >= SENDER_IDLE_MS
}

/// The senders that have not been silent too long.
pub open spec fn live(s: Seq<SenderValue>, now: u64) -> Seq<SenderValue>
    decreases s.len(),
{
    if s.len() == 0 {
        Seq::empty()
    } else if is_idle(s[0].last, now) {
        live(s.skip(1), now)
    } else {
        seq![s[0]] + live(s.skip(1), now)
    }
}

/// The sockets of the senders that have been silent too long.
pub open spec fn idle_slots(s: Seq<SenderValue>, now: u64) -> Seq<u64>
    decreases s.len(),
{
    if s.len() == 0 {
        Seq::empty()
    } else if is_idle(s[0].last, now) {
        seq![s[0].slot] + idle_slots(s.skip(1), now)
    } else {
        idle_slots(s.skip(1), now)
    }
}

/// Whether `v` is the sender with this address and port.
pub open spec fn is_sender(v: SenderValue, addr: Seq<char>, port: u32) -> bool {
    v.addr == addr && v.port == port
}

/// Whether no two senders have the same address and port, or the same socket, and all
/// sockets are numbered below `next`.
pub open spec fn distinct(s: Seq<SenderValue>, next: u64) -> bool {
    &&& forall|i: int| 0 <= i < s.len() ==> (#[trigger] s[i]).slot < next
    &&& forall|i: int, j: int|
        0 <= i < j < s.len() ==> (#[trigger] s[i]).slot != (#[trigger] s[j]).slot && !(s[i].addr
            == s[j].addr && s[i].port == s[j].port)
}

/// The place of the sender with this address and port, or the length where there is none.
pub open spec fn sender_place(s: Seq<SenderValue>, addr: Seq<char>, port: u32) -> nat
    decreases s.len(),
{
    if s.len() == 0 || is_sender(s[0], addr, port) {
        0
    } else {
        1 + sender_place(s.skip(1), addr, port)
    }
}

/// Whether `r` and `after` are the socket of a sender and the senders after it was heard: it is
/// heard now, and nothing else changes.
pub open spec fn routed(
    before: Seq<SenderValue>,
    addr: Seq<char>,
    port: u32,
    now: u64,
    after: Seq<SenderValue>,
    r: Option<u64>,
) -> bool {
    let k = sender_place(before, addr, port) as int;
    if k < before.len() {
        r == Some(before[k].slot) && after == before.update(
            k,
            SenderValue { last: now, ..before[k] },
        )
    } else {
        r is None && after == before
    }
}

/// Whether `after` are the senders with a new one, which is heard now and has the socket
/// `slot`.
pub open spec fn added(
    before: Seq<SenderValue>,
    addr: Seq<char>,
    port: u32,
    now: u64,
    after: Seq<SenderValue>,
    slot: u64,
) -> bool {
    after == before.push(SenderValue { addr, port, slot, last: now })
}

/// The values of senders.
pub open spec fn sender_values(v: Seq<Sender>) -> Seq<SenderValue> {
    v.map_values(|s: Sender| s@)
}

impl SenderTable {
    /// The senders, in the order in which they came.
    pub closed spec fn view(self) -> Seq<SenderValue> {
        sender_values(self.senders@)
    }

    /// The number of the next socket.
    pub closed spec fn next(self) -> u64 {
        self.next_slot
    }

    /// Whether every sender has a socket of its own.
    pub open spec fn wf(self) -> bool {
        distinct(self@, self.next())
    }

    /// A table without senders.
    pub fn new() -> (r: Self)
        ensures
            r.wf(),
            r@ == Seq::<SenderValue>::empty(),
            r.next() == 0,
    {
        let r = SenderTable { senders: Vec::new(), next_slot: 0 };
        assert(r@ =~= Seq::empty());
        r
    }

    /// Whether there is a number left for another socket.
    pub fn has_room(&self) -> (r: bool)
        ensures
            r == (self.next() < u64::MAX),
    {
        self.next_slot < u64::MAX
    }

    /// Drops the senders that have been silent too long, and returns their sockets.
    pub fn evict(&mut self, now: u64) -> (r: Vec<u64>)
        requires
            old(self).wf(),
        ensures
            final(self).wf(),
            final(self)@ == live(old(self)@, now),
            final(self).next() == old(self).next(),
            r@ == idle_slots(old(self)@, now),
    {
        let ghost all = self@;
        let mut evicted: Vec<u64> = Vec::new();
        let mut i: usize = 0;
        proof {
            assert(all.skip(0) =~= all);
            assert(all.take(0) + live(all, now) =~= live(all, now));
            assert(Seq::<u64>::empty() + idle_slots(all, now) =~= idle_slots(all, now));
        }
        while i < self.senders.len()
            invariant
                i <= self.senders@.len(),
                self.next_slot == old(self).next_slot,
                live(all, now) == self@.take(i as int) + live(self@.skip(i as int), now),
                idle_slots(all, now) == evicted@ + idle_slots(self@.skip(i as int), now),
            decreases self.senders@.len() - i,
        {
            let ghost here = self@.skip(i as int);
            let ghost before = self@;
            assert(here[0] == self.senders@[i as int]@);
            let last: u64 = self.senders[i].last;
            if now >= last && now - last >= SENDER_IDLE_MS {
                let gone = self.senders.remove(i);
                let ghost slots = evicted@;
                evicted.push(gone.slot);
                assert(self@ =~= before.remove(i as int));
                assert(self@.take(i as int) =~= before.take(i as int));
                assert(self@.skip(i as int) =~= here.skip(1));
                assert(slots + (seq![gone.slot] + idle_slots(here.skip(1), now)) =~= evicted@
                    + idle_slots(here.skip(1), now));
            } else {
                assert(before.skip(i + 1) =~= here.skip(1));
                assert(before.take(i as int) + (seq![here[0]] + live(here.skip(1), now))
                    =~= before.take(i + 1) + live(here.skip(1), now));
                i = i + 1;
            }
        }
        proof {
            assert(self@.take(i as int) =~= self@);
            assert(self@.skip(i as int) =~= Seq::empty());
            assert(self@ + Seq::<SenderValue>::empty() =~= self@);
            assert(evicted@ + Seq::<u64>::empty() =~= evicted@);
            lemma_live_distinct(all, now, self.next());
        }
        evicted
    }

    /// The socket of the sender, where it has one; the sender counts as heard now.
    pub fn route(&mut self, addr: &str, port: u32, now: u64) -> (r: Option<u64>)
        requires
            old(self).wf(),
        ensures
            final(self).wf(),
            final(self).next() == old(self).next(),
            routed(old(self)@, addr@, port, now, final(self)@, r),
    {
        let ghost s = self@;
        let n: usize = self.senders.len();
        assert(s.skip(0) =~= s);
        for i in 0..n
            invariant
                n == self.senders@.len(),
                self@ == s,
                old(self)@ == s,
                self.wf(),
                self.next() == old(self).next(),
                sender_place(s, addr@, port) == i + sender_place(s.skip(i as int), addr@, port),
        {
            let ghost here = s.skip(i as int);
            assert(here[0] == self.senders@[i as int]@);
            assert(here.skip(1) =~= s.skip(i + 1));
            if self.senders[i].port == port && text_eq(self.senders[i].addr.as_str(), addr) {
                let slot: u64 = self.senders[i].slot;
                self.senders[i].last = now;
                proof {
                    let t = s.update(i as int, SenderValue { last: now, ..s[i as int] });
                    assert(self@ =~= t);
                    assert forall|a: int, b: int| 0 <= a < b < t.len() implies (#[trigger] t[a]).slot
                        != (#[trigger] t[b]).slot && !(t[a].addr == t[b].addr && t[a].port
                        == t[b].port) by {
                        assert(s[a].slot != s[b].slot);
                    }
                    assert forall|a: int| 0 <= a < t.len() implies (#[trigger] t[a]).slot
                        < self.next() by {
                        assert(s[a].slot < self.next());
                    }
                }
                return Some(slot);
            }
        }
        None
    }

    /// Gives a new sender a socket, and returns its number.
    pub fn insert(&mut self, addr: &str, port: u32, now: u64) -> (r: u64)
        requires
            old(self).wf(),
            old(self).next() < u64::MAX,
            sender_place(old(self)@, addr@, port) == old(self)@.len(),
        ensures
            final(self).wf(),
            final(self).next() == old(self).next() + 1,
            r == old(self).next(),
            added(old(self)@, addr@, port, now, final(self)@, r),
    {
        let ghost s = self@;
        let slot: u64 = self.next_slot;
        self.senders.push(Sender { addr: addr.to_owned(), port, slot, last: now });
        self.next_slot = slot + 1;
        proof {
            let v = SenderValue { addr: addr@, port, slot, last: now };
            let t = s.push(v);
            assert(self@ =~= t);
            assert forall|i: int| 0 <= i < s.len() implies !is_sender(
                #[trigger] s[i],
                addr@,
                port,
            ) by {
                lemma_not_sender(s, addr@, port, i);
            }
            assert forall|i: int| 0 <= i < t.len() implies (#[trigger] t[i]).slot
                < self.next() by {
                if i < s.len() {
                    assert(s[i].slot < old(self).next());
                }
            }
            assert forall|i: int, j: int| 0 <= i < j < t.len() implies (#[trigger] t[i]).slot != (
            #[trigger] t[j]).slot && !(t[i].addr == t[j].addr && t[i].port == t[j].port) by {
                if j < s.len() {
                    assert(s[i].slot != s[j].slot);
                } else {
                    assert(s[i].slot < slot);
                    assert(!is_sender(s[i], addr@, port));
                }
            }
        }
        slot
    }
}

proof fn lemma_not_sender(s: Seq<SenderValue>, addr: Seq<char>, port: u32, i: int)
    requires
        0 <= i < s.len(),
        sender_place(s, addr, port) == s.len(),
    ensures
        !is_sender(s[i], addr, port),
    decreases s.len(),
{
    if i > 0 {
        lemma_not_sender(s.skip(1), addr, port, i - 1);
        assert(s.skip(1)[i - 1] == s[i]);
    }
}

/// Every live sender is one of the senders.
proof fn lemma_live_from(s: Seq<SenderValue>, now: u64, i: int) -> (k: int)
    requires
        0 <= i < live(s, now).len(),
    ensures
        i <= k < s.len(),
        live(s, now)[i] == s[k],
        !is_idle(s[k].last, now),
    decreases s.len(),
{
    if is_idle(s[0].last, now) {
        let k = lemma_live_from(s.skip(1), now, i);
        assert(s.skip(1)[k] == s[k + 1]);
        k + 1
    } else if i == 0 {
        0
    } else {
        assert(live(s, now)[i] == live(s.skip(1), now)[i - 1]);
        let k = lemma_live_from(s.skip(1), now, i - 1);
        assert(s.skip(1)[k] == s[k + 1]);
        k + 1
    }
}

proof fn lemma_live_distinct(s: Seq<SenderValue>, now: u64, next: u64)
    requires
        distinct(s, next),
    ensures
        distinct(live(s, now), next),
    decreases s.len(),
{
    if s.len() > 0 {
        let rest = s.skip(1);
        assert forall|i: int| 0 <= i < rest.len() implies (#[trigger] rest[i]).slot < next by {
            assert(rest[i] == s[i + 1]);
        }
        assert forall|i: int, j: int| 0 <= i < j < rest.len() implies (#[trigger] rest[i]).slot != (
        #[trigger] rest[j]).slot && !(rest[i].addr == rest[j].addr && rest[i].port
            == rest[j].port) by {
            assert(rest[i] == s[i + 1] && rest[j] == s[j + 1]);
        }
        lemma_live_distinct(rest, now, next);
        if !is_idle(s[0].last, now) {
            let l = live(s, now);
            let m = live(rest, now);
            assert forall|i: int| 0 <= i < l.len() implies (#[trigger] l[i]).slot < next by {
                if i > 0 {
                    assert(l[i] == m[i - 1]);
                }
            }
            assert forall|i: int, j: int| 0 <= i < j < l.len() implies (#[trigger] l[i]).slot != (
            #[trigger] l[j]).slot && !(l[i].addr == l[j].addr && l[i].port == l[j].port) by {
                assert(l[j] == m[j - 1]);
                if i > 0 {
                    assert(l[i] == m[i - 1]);
                } else {
                    let k = lemma_live_from(rest, now, j - 1);
                    assert(rest[k] == s[k + 1]);
                    assert(s[0].slot != s[k + 1].slot);
                }
            }
        }
    }
}

/// A sender that is heard again before it has been silent too long keeps its socket.
pub proof fn law_sender_keeps_socket(s: Seq<SenderValue>, now: u64, i: int, next: u64)
    requires
        distinct(s, next),
        0 <= i < s.len(),
        !is_idle(s[i].last, now),
    ensures
        ({
            let l = live(s, now);
            let k = sender_place(l, s[i].addr, s[i].port) as int;
            k < l.len() && l[k].slot == s[i].slot
        }),
    decreases s.len(),
{
    let rest = s.skip(1);
    if i > 0 {
        assert forall|a: int| 0 <= a < rest.len() implies (#[trigger] rest[a]).slot < next by {
            assert(rest[a] == s[a + 1]);
        }
        assert forall|a: int, b: int| 0 <= a < b < rest.len() implies (#[trigger] rest[a]).slot != (
        #[trigger] rest[b]).slot && !(rest[a].addr == rest[b].addr && rest[a].port
            == rest[b].port) by {
            assert(rest[a] == s[a + 1] && rest[b] == s[b + 1]);
        }
        assert(rest[i - 1] == s[i]);
        law_sender_keeps_socket(rest, now, i - 1, next);
        if !is_idle(s[0].last, now) {
            let l = live(s, now);
            assert(l[0] == s[0]);
            assert(l.skip(1) =~= live(rest, now));
            assert(s[0].slot != s[i].slot);
            let k = sender_place(live(rest, now), s[i].addr, s[i].port) as int;
            assert(l[k + 1] == live(rest, now)[k]);
        }
    } else {
        assert(live(s, now)[0] == s[0]);
    }
}

// ---------------------------------------------------------------------------
// Laws
// ---------------------------------------------------------------------------

/// An address is the host, a colon and the port in decimal, and reads back as these.
pub proof fn law_address_parts(host: Seq<char>, port: u32)
    ensures
        ({
            let a = host_port(host, port as nat);
            &&& a.len() > host.len()
            &&& a.take(host.len() as int) == host
            &&& a[host.len() as int] == ':'
            &&& crate::text::unsigned_value(a.skip(host.len() as int + 1), u32::MAX as nat) == Some(
                port as nat,
            )
        }),
{
    reveal_strlit(":");
    crate::text::lemma_decimal_value(port as nat);
    let a = host_port(host, port as nat);
    assert(a.take(host.len() as int) =~= host);
    assert(a.skip(host.len() as int + 1) =~= decimal(port as nat));
}

/// A stream that was opened for a forward leads, on either side, to the host and port of the
/// forward, over its protocol.
pub proof fn law_opened_stream_leads_to_target(
    spec: ForwardSpec,
    env: Envelope,
    open: StreamOpen,
    server: StreamTarget,
    client: StreamTarget,
)
    requires
        call_ensures(open_forward, (&spec,), env),
        env@ == Some(PayloadValue::StreamOpen(open@)),
        call_ensures(server_target, (&open,), server),
        call_ensures(client_target, (&open,), client),
    ensures
        server@ == client@,
        spec.proto == ForwardProto::Tcp ==> server@ == TargetValue::Tcp(
            spec.remote_host@ + ":"@ + decimal(spec.remote_port as nat),
        ),
        spec.proto == ForwardProto::Udp ==> server@ == TargetValue::Udp(
            spec.remote_host@ + ":"@ + decimal(spec.remote_port as nat),
        ),
{
    law_forward_reaches_target(spec.remote_host@, spec.remote_port, spec.proto);
}

/// A stream that was opened for an X11 connection leads the client to its display.
pub proof fn law_x11_stream_leads_to_display(
    env: Envelope,
    open: StreamOpen,
    client: StreamTarget,
)
    requires
        call_ensures(open_x11, (), env),
        env@ == Some(PayloadValue::StreamOpen(open@)),
        call_ensures(client_target, (&open,), client),
    ensures
        client@ == TargetValue::X11,
{
}

/// A forward with an explicit address listens on that address and its port alone; without one
/// and without the gateway flag, on the loopback addresses.
pub proof fn law_listens_on_port(spec: ForwardSpec, gateway: bool, r: Vec<String>)
    requires
        call_ensures(listen_addresses, (&spec, gateway), r),
    ensures
        spec.bind_address matches Some(a) ==> r@.len() == 1 && (a@.len() > 0 && a@ != "*"@ && a@
            != "0.0.0.0"@ && a@ != "::"@ ==> r@[0]@ == a@ + ":"@ + decimal(spec.local_port as nat)),
        spec.bind_address is None && !gateway ==> r@.len() == 2 && r@[0]@ == "127.0.0.1"@ + ":"@
            + decimal(spec.local_port as nat) && r@[1]@ == "[::1]"@ + ":"@ + decimal(
            spec.local_port as nat,
        ),
        spec.bind_address is None && gateway ==> r@.len() == 1 && r@[0]@ == "[::]"@ + ":"@
            + decimal(spec.local_port as nat),
{
    if let Some(a) = spec.bind_address {
        crate::forward::law_listens_where_asked(a@, gateway);
    }
    crate::forward::law_listens_where_asked(Seq::empty(), gateway);
}

/// A stream is used again as long as the connection is the one that it belongs to.
pub proof fn law_stream_is_kept(
    conn: u64,
    other: u64,
    kept: bool,
    lost: bool,
    none: bool,
    moved: bool,
)
    requires
        call_ensures(needs_new_stream, (true, Some(conn), conn), kept),
        call_ensures(needs_new_stream, (false, Some(conn), conn), lost),
        call_ensures(needs_new_stream, (true, None, conn), none),
        call_ensures(needs_new_stream, (true, Some(other), conn), moved),
    ensures
        !kept,
        lost,
        none,
        other != conn ==> moved,
{
}

/// A sender goes if and only if it has been silent for 30 seconds: then its socket is given
/// up, and else it stays as it is. No other socket is given up.
pub proof fn law_silent_senders_go(s: Seq<SenderValue>, now: u64, i: int)
    requires
        0 <= i < s.len(),
    ensures
        now - s[i].last >= 30_000 ==> idle_slots(s, now).contains(s[i].slot),
        now - s[i].last < 30_000 ==> live(s, now).contains(s[i]),
        live(s, now).len() + idle_slots(s, now).len() == s.len(),
        forall|k: int|
            0 <= k < live(s, now).len() ==> now - (#[trigger] live(s, now)[k]).last < 30_000,
    decreases s.len(),
{
    lemma_live_count(s, now);
    assert forall|k: int| 0 <= k < live(s, now).len() implies now - (#[trigger] live(
        s,
        now,
    )[k]).last < 30_000 by {
        let j = lemma_live_from(s, now, k);
    }
    let rest = s.skip(1);
    let idle = is_idle(s[0].last, now);
    if i == 0 {
        if idle {
            assert(idle_slots(s, now)[0] == s[0].slot);
        } else {
            assert(live(s, now)[0] == s[0]);
        }
    } else {
        assert(rest[i - 1] == s[i]);
        law_silent_senders_go(rest, now, i - 1);
        if now - s[i].last >= 30_000 {
            let k = choose|k: int|
                0 <= k < idle_slots(rest, now).len() && idle_slots(rest, now)[k] == s[i].slot;
            assert(idle_slots(s, now)[if idle { k + 1 } else { k }] == s[i].slot);
        } else {
            let k = choose|k: int| 0 <= k < live(rest, now).len() && live(rest, now)[k] == s[i];
            assert(live(s, now)[if idle { k } else { k + 1 }] == s[i]);
        }
    }
}

proof fn lemma_live_count(s: Seq<SenderValue>, now: u64)
    ensures
        live(s, now).len() + idle_slots(s, now).len() == s.len(),
    decreases s.len(),
{
    if s.len() > 0 {
        lemma_live_count(s.skip(1), now);
    }
}

/// A sender that is known is routed to its own socket and counts as heard now; all others stay
/// as they are, and nobody else is routed anywhere.
pub proof fn law_sender_is_routed(
    before: Seq<SenderValue>,
    next: u64,
    addr: Seq<char>,
    port: u32,
    now: u64,
    after: Seq<SenderValue>,
    r: Option<u64>,
    i: int,
)
    requires
        distinct(before, next),
        routed(before, addr, port, now, after, r),
        0 <= i < before.len(),
    ensures
        after.len() == before.len(),
        before[i].addr == addr && before[i].port == port ==> r == Some(before[i].slot) && after[i]
            == (SenderValue { last: now, ..before[i] }),
        before[i].addr != addr || before[i].port != port ==> after[i] == before[i] && r != Some(
            before[i].slot,
        ),
        r is None ==> before[i].addr != addr || before[i].port != port,
{
    let k = sender_place(before, addr, port) as int;
    lemma_place(before, addr, port);
    if before[i].addr == addr && before[i].port == port {
        if k < before.len() && k != i {
            if k < i {
                assert(before[k].slot != before[i].slot);
            } else {
                assert(!is_sender(before[i], addr, port));
            }
        }
    } else if k < before.len() {
        if i < k {
            assert(before[i].slot != before[k].slot);
        } else if k < i {
            assert(before[k].slot != before[i].slot);
        }
    }
}

proof fn lemma_place(s: Seq<SenderValue>, addr: Seq<char>, port: u32)
    ensures
        sender_place(s, addr, port) <= s.len(),
        sender_place(s, addr, port) < s.len() ==> is_sender(
            s[sender_place(s, addr, port) as int],
            addr,
            port,
        ),
        forall|i: int|
            0 <= i < sender_place(s, addr, port) ==> !is_sender(#[trigger] s[i], addr, port),
    decreases s.len(),
{
    if s.len() > 0 && !is_sender(s[0], addr, port) {
        lemma_place(s.skip(1), addr, port);
        assert forall|i: int| 0 <= i < sender_place(s, addr, port) implies !is_sender(
            #[trigger] s[i],
            addr,
            port,
        ) by {
            if i > 0 {
                assert(s.skip(1)[i - 1] == s[i]);
            }
        }
    }
}

/// A new sender is routed to the socket that it was given, as long as it is not silent for 30
/// seconds; no other sender has that socket, and the others stay.
pub proof fn law_new_sender_is_routed(
    before: Seq<SenderValue>,
    next: u64,
    addr: Seq<char>,
    port: u32,
    now: u64,
    after: Seq<SenderValue>,
    later: u64,
    heard: Seq<SenderValue>,
    r: Option<u64>,
)
    requires
        distinct(before, next),
        sender_place(before, addr, port) == before.len(),
        added(before, addr, port, now, after, next),
        now <= later < now + 30_000,
        routed(live(after, later), addr, port, later, heard, r),
    ensures
        r == Some(next),
        after.len() == before.len() + 1,
        forall|i: int| 0 <= i < before.len() ==> #[trigger] after[i] == before[i],
        forall|i: int| 0 <= i < before.len() ==> (#[trigger] before[i]).slot != next,
{
    let v = SenderValue { addr, port, slot: next, last: now };
    lemma_place(before, addr, port);
    lemma_live_last(before, v, later);
    lemma_live_not_sender(before, addr, port, later);
    lemma_place_push(live(before, later), v, addr, port);
}

proof fn lemma_live_last(s: Seq<SenderValue>, v: SenderValue, now: u64)
    requires
        !is_idle(v.last, now),
    ensures
        live(s.push(v), now) == live(s, now).push(v),
    decreases s.len(),
{
    if s.len() == 0 {
        assert(s.push(v).skip(1) =~= Seq::empty());
        assert(live(s.push(v).skip(1), now) =~= Seq::empty());
        assert(s.push(v)[0] == v);
        assert(live(s.push(v), now) =~= live(s, now).push(v));
    } else {
        assert(s.push(v).skip(1) =~= s.skip(1).push(v));
        lemma_live_last(s.skip(1), v, now);
        assert(live(s.push(v), now) =~= live(s, now).push(v));
    }
}

proof fn lemma_live_not_sender(s: Seq<SenderValue>, addr: Seq<char>, port: u32, now: u64)
    requires
        sender_place(s, addr, port) == s.len(),
    ensures
        forall|i: int|
            0 <= i < live(s, now).len() ==> !is_sender(#[trigger] live(s, now)[i], addr, port),
{
    assert forall|i: int| 0 <= i < live(s, now).len() implies !is_sender(
        #[trigger] live(s, now)[i],
        addr,
        port,
    ) by {
        let k = lemma_live_from(s, now, i);
        lemma_not_sender(s, addr, port, k);
    }
}

proof fn lemma_place_push(s: Seq<SenderValue>, v: SenderValue, addr: Seq<char>, port: u32)
    requires
        is_sender(v, addr, port),
        forall|i: int| 0 <= i < s.len() ==> !is_sender(#[trigger] s[i], addr, port),
    ensures
        sender_place(s.push(v), addr, port) == s.len(),
    decreases s.len(),
{
    if s.len() > 0 {
        assert(!is_sender(s[0], addr, port));
        assert(s.push(v).skip(1) =~= s.skip(1).push(v));
        assert forall|i: int| 0 <= i < s.skip(1).len() implies !is_sender(
            #[trigger] s.skip(1)[i],
            addr,
            port,
        ) by {
            assert(s.skip(1)[i] == s[i + 1]);
        }
        lemma_place_push(s.skip(1), v, addr, port);
    }
}

/// Every protocol number but that of UDP stands for TCP.
pub proof fn law_unknown_protocol_is_tcp(m: StreamOpenValue)
    ensures
        forward_target(m) is Udp <==> m.forward_proto == 1,
        forward_target(m) is Tcp <==> m.forward_proto != 1,
{
}

} // verus!
