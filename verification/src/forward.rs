//! Port-forwarding specifications and forwarded datagrams.
//!
//! A specification reads as for `ssh -L`:
//! ```text
//! [bind_address:]local_port:remote_host:remote_port[/tcp|/udp]
//! ```
//! A colon inside square brackets, as in an IPv6 address, separates nothing.
use vstd::prelude::*;

use crate::bytes::push_all;
use crate::fields::lists;
use crate::net::{format_ip, ip_literal, ip_text, parse_ip, IpAddress, SocketAddr};
use crate::protocol::{
    decoded, envelope_acks, envelope_bytes, is_encoding, udp_datagram_fields, ForwardProto,
    PayloadValue, UdpDatagram, UdpDatagramValue,
};
use crate::quic::{announced, frame, framed, law_msg_round_trip, MAX_MESSAGE};
use crate::text::{
    chars_of, decimal, decimal_text, ends_with, lemma_decimal_value, lemma_texts_push, parse_u16,
    strip_suffix, text_eq, texts, unsigned_value,
};
use crate::wire::{fields_bytes, write_bytes_field};

verus! {

// ---------------------------------------------------------------------------
// Splitting
// ---------------------------------------------------------------------------

/// Whether the last bracket in `s` is an opening one.
pub open spec fn in_brackets(s: Seq<char>) -> bool
    decreases s.len(),
{
    s.len() > 0 && (s.last() == '[' || (s.last() != ']' && in_brackets(s.drop_last())))
}

/// The parts of `s` between the colons that stand outside brackets.
pub open spec fn bracket_parts(s: Seq<char>) -> Seq<Seq<char>>
    decreases s.len(),
{
    if s.len() == 0 {
        seq![Seq::empty()]
    } else {
        let p = bracket_parts(s.drop_last());
        if s.last() == ':' && !in_brackets(s.drop_last()) {
            p.push(Seq::empty())
        } else {
            p.drop_last().push(p.last().push(s.last()))
        }
    }
}

/// Splits a specification at its colons, those inside square brackets aside.
pub fn split_ignoring_brackets(s: &str) -> (r: Vec<String>)
    ensures
        texts(r@) == bracket_parts(s@),
        r@.len() > 0,
{
    let cs = chars_of(s);
    let mut parts: Vec<String> = Vec::new();
    let mut current: String = String::new();
    let mut inside: bool = false;
    assert(cs@.take(0) =~= Seq::empty());
    assert(texts(parts@).push(current@) =~= bracket_parts(cs@.take(0)));
    for i in 0..cs.len()
        invariant
            texts(parts@).push(current@) == bracket_parts(cs@.take(i as int)),
            inside == in_brackets(cs@.take(i as int)),
    {
        let c = cs[i];
        let ghost upto = cs@.take(i + 1);
        let ghost p = bracket_parts(cs@.take(i as int));
        assert(upto.drop_last() =~= cs@.take(i as int));
        assert(upto.last() == c);
        assert(p.drop_last() =~= texts(parts@));
        assert(p.last() == current@);
        if c == ':' && !inside {
            proof {
                lemma_texts_push(parts@, current);
            }
            parts.push(current);
            current = String::new();
        } else {
            if c == '[' {
                inside = true;
            } else if c == ']' {
                inside = false;
            }
            current.push(c);
        }
        assert(texts(parts@).push(current@) =~= bracket_parts(upto));
    }
    assert(cs@.take(cs@.len() as int) =~= s@);
    proof {
        lemma_texts_push(parts@, current);
    }
    parts.push(current);
    parts
}

// ---------------------------------------------------------------------------
// Forwarding specifications
// ---------------------------------------------------------------------------

/// A `-L` or `-R` forwarding specification.
#[derive(Debug, Clone)]
pub struct ForwardSpec {
    /// The address or host to bind to, if given.
    pub bind_address: Option<String>,
    /// The port to listen on.
    pub local_port: u16,
    /// The host to forward to.
    pub remote_host: String,
    /// The port to forward to.
    pub remote_port: u16,
    /// The protocol that is forwarded.
    pub proto: ForwardProto,
}

/// The value of a forwarding specification.
pub struct ForwardValue {
    /// The address or host to bind to, if given.
    pub bind_address: Option<Seq<char>>,
    /// The port to listen on.
    pub local_port: u16,
    /// The host to forward to.
    pub remote_host: Seq<char>,
    /// The port to forward to.
    pub remote_port: u16,
    /// The protocol that is forwarded.
    pub proto: ForwardProto,
}

/// The text of an optional string.
pub open spec fn opt_text(o: Option<String>) -> Option<Seq<char>> {
    match o {
        Some(s) => Some(s@),
        None => None,
    }
}

/// The number that `s` writes, where it fits a port.
pub open spec fn port_of(s: Seq<char>) -> Option<u16> {
    match unsigned_value(s, u16::MAX as nat) {
        Some(n) => Some(n as u16),
        None => None,
    }
}

/// A specification without its protocol suffix.
pub open spec fn spec_base(s: Seq<char>) -> Seq<char> {
    if ends_with(s, "/udp"@) || ends_with(s, "/tcp"@) {
        s.take(s.len() - 4)
    } else {
        s
    }
}

/// The protocol that a specification asks for.
pub open spec fn spec_proto(s: Seq<char>) -> ForwardProto {
    if ends_with(s, "/udp"@) {
        ForwardProto::Udp
    } else {
        ForwardProto::Tcp
    }
}

/// What the specification `s` says, or the message that refuses it.
pub open spec fn parsed_forward(s: Seq<char>) -> Result<ForwardValue, Seq<char>> {
    let parts = bracket_parts(spec_base(s));
    let n = parts.len() as int;
    if n != 3 && n != 4 {
        Err("invalid spec '"@ + s + "': expected [bind_address:]local_port:remote_host:remote_port"@)
    } else {
        let local = parts[n - 3];
        let host = parts[n - 2];
        let remote = parts[n - 1];
        if port_of(local) is None {
            Err("invalid local port '"@ + local + "' in spec '"@ + s + "'"@)
        } else if port_of(remote) is None {
            Err("invalid remote port '"@ + remote + "' in spec '"@ + s + "'"@)
        } else if host.len() == 0 {
            Err("empty remote host in spec '"@ + s + "'"@)
        } else {
            Ok(
                ForwardValue {
                    bind_address: if n == 4 {
                        Some(parts[0])
                    } else {
                        None
                    },
                    local_port: port_of(local).unwrap(),
                    remote_host: host,
                    remote_port: port_of(remote).unwrap(),
                    proto: spec_proto(s),
                },
            )
        }
    }
}

/// How a specification is written.
pub open spec fn forward_text(v: ForwardValue) -> Seq<char> {
    (match v.bind_address {
        Some(b) => b + ":"@,
        None => Seq::empty(),
    }) + decimal(v.local_port as nat) + ":"@ + v.remote_host + ":"@ + decimal(v.remote_port as nat)
        + (match v.proto {
        ForwardProto::Tcp => "/tcp"@,
        ForwardProto::Udp => "/udp"@,
    })
}

/// Whether `addr` stands for every address.
pub open spec fn is_wildcard(addr: Seq<char>) -> bool {
    addr == "*"@ || addr == "0.0.0.0"@ || addr == "::"@ || addr.len() == 0
}

/// The addresses that a forward listens on.
pub open spec fn bind_targets(bind: Option<Seq<char>>, gateway: bool) -> Seq<Seq<char>> {
    match bind {
        Some(a) => if is_wildcard(a) {
            seq!["[::]"@]
        } else {
            seq![a]
        },
        None => if gateway {
            seq!["[::]"@]
        } else {
            seq!["127.0.0.1"@, "[::1]"@]
        },
    }
}

/// `a`, `b` and `c` after one another.
fn join3(a: &str, b: &str, c: &str) -> (r: String)
    ensures
        r@ == a@ + b@ + c@,
{
    let mut r = a.to_owned();
    r.append(b);
    r.append(c);
    r
}

impl ForwardSpec {
    /// The value of the specification.
    pub open spec fn view(self) -> ForwardValue {
        ForwardValue {
            bind_address: opt_text(self.bind_address),
            local_port: self.local_port,
            remote_host: self.remote_host@,
            remote_port: self.remote_port,
            proto: self.proto,
        }
    }

    /// Reads a forwarding specification. The remote host and the bind address may be IPv6
    /// addresses in brackets.
    pub fn parse(s: &str) -> (r: Result<Self, String>)
        ensures
            match r {
                Ok(f) => parsed_forward(s@) == Ok::<ForwardValue, Seq<char>>(f@),
                Err(e) => parsed_forward(s@) == Err::<ForwardValue, Seq<char>>(e@),
            },
    {
        proof {
            reveal_strlit("/udp");
            reveal_strlit("/tcp");
        }
        let (rest, proto) = match strip_suffix(s, "/udp") {
            Some(base) => (base, ForwardProto::Udp),
            None => match strip_suffix(s, "/tcp") {
                Some(base) => (base, ForwardProto::Tcp),
                None => (s, ForwardProto::Tcp),
            },
        };
        assert(rest@ == spec_base(s@));
        let parts = split_ignoring_brackets(rest);
        let ghost ps = bracket_parts(spec_base(s@));
        let n: usize = parts.len();
        if n != 3 && n != 4 {
            return Err(
                join3(
                    "invalid spec '",
                    s,
                    "': expected [bind_address:]local_port:remote_host:remote_port",
                ),
            );
        }
        assert(ps[n - 3] == parts@[n - 3]@);
        assert(ps[n - 2] == parts@[n - 2]@);
        assert(ps[n - 1] == parts@[n - 1]@);
        let local_port: u16 = match parse_u16(parts[n - 3].as_str()) {
            Some(p) => p,
            None => {
                let mut e = join3("invalid local port '", parts[n - 3].as_str(), "' in spec '");
                e.append(s);
                e.append("'");
                return Err(e);
            },
        };
        let remote_port: u16 = match parse_u16(parts[n - 1].as_str()) {
            Some(p) => p,
            None => {
                let mut e = join3("invalid remote port '", parts[n - 1].as_str(), "' in spec '");
                e.append(s);
                e.append("'");
                return Err(e);
            },
        };
        if parts[n - 2].as_str().unicode_len() == 0 {
            return Err(join3("empty remote host in spec '", s, "'"));
        }
        let bind_address = if n == 4 {
            assert(ps[0] == parts@[0]@);
            Some(parts[0].clone())
        } else {
            None
        };
        Ok(
            ForwardSpec {
                bind_address,
                local_port,
                remote_host: parts[n - 2].clone(),
                remote_port,
                proto,
            },
        )
    }

    /// The addresses to bind, each to be followed by a colon and the port.
    ///
    /// A wildcard or `gateway` gives the one dual-stack address `[::]`; by default both
    /// loopback addresses are bound; any other bind address is taken as it is.
    pub fn get_bind_addresses(&self, gateway: bool) -> (r: Vec<String>)
        ensures
            texts(r@) == bind_targets(self@.bind_address, gateway),
    {
        let mut r: Vec<String> = Vec::new();
        match &self.bind_address {
            Some(addr) => {
                let a = addr.as_str();
                if text_eq(a, "*") || text_eq(a, "0.0.0.0") || text_eq(a, "::") || a.unicode_len()
                    == 0 {
                    r.push("[::]".to_owned());
                } else {
                    r.push(addr.clone());
                }
            },
            None => {
                if gateway {
                    r.push("[::]".to_owned());
                } else {
                    r.push("127.0.0.1".to_owned());
                    r.push("[::1]".to_owned());
                }
            },
        }
        assert(texts(r@) =~= bind_targets(self@.bind_address, gateway));
        r
    }

    /// The specification as text.
    pub fn to_text(&self) -> (r: String)
        ensures
            r@ == forward_text(self@),
    {
        let mut r: String = String::new();
        if let Some(bind) = &self.bind_address {
            r.append(bind.as_str());
            r.append(":");
            assert(r@ =~= bind@ + ":"@);
        }
        r.append(decimal_text(self.local_port as u64).as_str());
        r.append(":");
        r.append(self.remote_host.as_str());
        r.append(":");
        r.append(decimal_text(self.remote_port as u64).as_str());
        match self.proto {
            ForwardProto::Tcp => {
                r.append("/tcp");
            },
            ForwardProto::Udp => {
                r.append("/udp");
            },
        }
        r
    }
}

// ---------------------------------------------------------------------------
// Reading what was written
// ---------------------------------------------------------------------------

/// Whether `s` is one part, and closes every bracket that it opens.
pub open spec fn is_part(s: Seq<char>) -> bool {
    bracket_parts(s) == seq![s] && !in_brackets(s)
}

/// Whether the parts of a specification can stand next to one another in text.
pub open spec fn writable(v: ForwardValue) -> bool {
    &&& v.remote_host.len() > 0
    &&& is_part(v.remote_host)
    &&& v.bind_address matches Some(b) ==> is_part(b)
}

proof fn lemma_parts_nonempty(s: Seq<char>)
    ensures
        bracket_parts(s).len() > 0,
    decreases s.len(),
{
    if s.len() > 0 {
        lemma_parts_nonempty(s.drop_last());
    }
}

/// A colon outside brackets separates the parts before it from those behind it.
pub proof fn lemma_parts_join(a: Seq<char>, b: Seq<char>)
    requires
        !in_brackets(a),
    ensures
        bracket_parts(a + ":"@ + b) == bracket_parts(a) + bracket_parts(b),
        in_brackets(a + ":"@ + b) == in_brackets(b),
    decreases b.len(),
{
    reveal_strlit(":");
    let s = a + ":"@ + b;
    if b.len() == 0 {
        assert(s.drop_last() =~= a);
        assert(s =~= a.push(':'));
        assert(bracket_parts(s) =~= bracket_parts(a) + bracket_parts(b));
    } else {
        let init = b.drop_last();
        assert(s.drop_last() =~= a + ":"@ + init);
        lemma_parts_join(a, init);
        lemma_parts_nonempty(init);
        let pa = bracket_parts(a);
        let pb = bracket_parts(init);
        assert((pa + pb).drop_last() =~= pa + pb.drop_last());
        assert(bracket_parts(s) =~= pa + bracket_parts(b));
    }
}

/// Text without colons and brackets is one part.
pub proof fn lemma_plain_part(s: Seq<char>)
    requires
        forall|i: int| 0 <= i < s.len() ==> s[i] != ':' && s[i] != '[' && s[i] != ']',
    ensures
        is_part(s),
    decreases s.len(),
{
    if s.len() > 0 {
        lemma_plain_part(s.drop_last());
        assert(seq![s.drop_last()].drop_last() =~= Seq::empty());
        assert(s.drop_last().push(s.last()) =~= s);
    } else {
        assert(s =~= Seq::empty());
    }
    assert(bracket_parts(s) =~= seq![s]);
}

/// Every part but the last closes the brackets that it opens, and is one part.
proof fn lemma_parts_are_parts(s: Seq<char>)
    ensures
        ({
            let p = bracket_parts(s);
            &&& p.len() > 0
            &&& bracket_parts(p.last()) == seq![p.last()]
            &&& in_brackets(p.last()) == in_brackets(s)
            &&& forall|i: int| 0 <= i < p.len() - 1 ==> is_part(#[trigger] p[i])
        }),
    decreases s.len(),
{
    let p = bracket_parts(s);
    if s.len() == 0 {
        assert(p.last() =~= Seq::empty());
    } else {
        lemma_parts_are_parts(s.drop_last());
        let q = bracket_parts(s.drop_last());
        if s.last() == ':' && !in_brackets(s.drop_last()) {
            assert forall|i: int| 0 <= i < p.len() - 1 implies is_part(#[trigger] p[i]) by {
                assert(p[i] == q[i]);
                if i == q.len() - 1 {
                    assert(q.last() == q[i]);
                }
            }
        } else {
            let last = q.last().push(s.last());
            assert(p.last() == last);
            assert(last.drop_last() =~= q.last());
            assert(seq![q.last()].drop_last() =~= Seq::empty());
            assert(bracket_parts(last) =~= seq![last]);
            assert forall|i: int| 0 <= i < p.len() - 1 implies is_part(#[trigger] p[i]) by {
                assert(p[i] == q[i]);
            }
        }
    }
}

/// What is read from a specification can be written again.
pub proof fn law_parsed_is_writable(s: Seq<char>)
    ensures
        parsed_forward(s) matches Ok(v) ==> writable(v),
{
    let p = bracket_parts(spec_base(s));
    lemma_parts_are_parts(spec_base(s));
    if parsed_forward(s) is Ok {
        let n = p.len();
        assert(is_part(p[n - 2]));
        if n == 4 {
            assert(is_part(p[0]));
        }
    }
}

/// Reading what was written gives the same specification.
pub proof fn law_forward_round_trip(v: ForwardValue)
    requires
        writable(v),
    ensures
        parsed_forward(forward_text(v)) == Ok::<ForwardValue, Seq<char>>(v),
{
    reveal_strlit("/tcp");
    reveal_strlit("/udp");
    reveal_strlit(":");
    let suffix = match v.proto {
        ForwardProto::Tcp => "/tcp"@,
        ForwardProto::Udp => "/udp"@,
    };
    let local = decimal(v.local_port as nat);
    let remote = decimal(v.remote_port as nat);
    lemma_decimal_value(v.local_port as nat);
    lemma_decimal_value(v.remote_port as nat);
    lemma_digits_plain(local);
    lemma_digits_plain(remote);
    lemma_plain_part(local);
    lemma_plain_part(remote);
    let tail = v.remote_host + ":"@ + remote;
    lemma_parts_join(v.remote_host, remote);
    let mid = local + ":"@ + tail;
    lemma_parts_join(local, tail);
    let base = match v.bind_address {
        Some(b) => b + ":"@ + mid,
        None => mid,
    };
    if let Some(b) = v.bind_address {
        lemma_parts_join(b, mid);
    }
    let s = forward_text(v);
    assert(s =~= base + suffix);
    assert(s.skip(s.len() - 4) =~= suffix);
    assert(s.take(s.len() - 4) =~= base);
    assert("/tcp"@[1] != "/udp"@[1]);
    assert(ends_with(s, suffix));
    assert(spec_base(s) == base);
    let p = bracket_parts(base);
    if let Some(b) = v.bind_address {
        assert(p =~= seq![b, local, v.remote_host, remote]);
    } else {
        assert(p =~= seq![local, v.remote_host, remote]);
    }
}

proof fn lemma_digits_plain(s: Seq<char>)
    requires
        crate::text::all_digits(s),
    ensures
        forall|i: int| 0 <= i < s.len() ==> s[i] != ':' && s[i] != '[' && s[i] != ']',
{
    assert forall|i: int| 0 <= i < s.len() implies s[i] != ':' && s[i] != '[' && s[i] != ']' by {
        assert(crate::text::is_digit(s[i]));
    }
}

// ---------------------------------------------------------------------------
// Forwarded datagrams
// ---------------------------------------------------------------------------

/// The address of a datagram's peer, where `ip` is an address and `port` a usable port.
pub fn peer_from_ip(ip: Option<IpAddress>, port: u32) -> (r: Option<SocketAddr>)
    ensures
        r == (match ip {
            Some(a) => if 1 <= port <= 65535 {
                Some(SocketAddr { ip: a, port: port as u16, flowinfo: 0, scope_id: 0 })
            } else {
                None
            },
            None => None,
        }),
{
    match ip {
        Some(a) => if 1 <= port && port <= 65535 {
            Some(SocketAddr::new(a, port as u16))
        } else {
            None
        },
        None => None,
    }
}

/// The address of a datagram's peer. `None` where `peer_addr` is not an IP literal, or the
/// port is 0 or above 65535.
pub fn datagram_peer_addr(peer_addr: &str, peer_port: u32) -> (r: Option<SocketAddr>)
    ensures
        match ip_literal(peer_addr@) {
            Some(ip) => if 1 <= peer_port <= 65535 {
                r matches Some(a) && a.ip@ == ip && a.port == peer_port && a.flowinfo == 0
                    && a.scope_id == 0
            } else {
                r is None
            },
            None => r is None,
        },
{
    peer_from_ip(parse_ip(peer_addr), peer_port)
}

/// The datagram `payload` of a peer, as a message.
pub open spec fn datagram(peer: SocketAddr, payload: Seq<u8>) -> UdpDatagramValue {
    UdpDatagramValue {
        data: payload,
        peer_addr: ip_text(peer.ip@),
        peer_port: peer.port as u32,
    }
}

/// Frames datagrams. The text of the last peer's address is kept, since a forwarded port
/// mostly carries traffic of one peer.
pub struct UdpFrameEncoder {
    dgram: UdpDatagram,
    cached_ip: Option<IpAddress>,
    out: Vec<u8>,
}

impl Default for UdpFrameEncoder {
    /// A new encoder.
    fn default() -> (r: Self)
        ensures
            r.wf(),
    {
        Self::new()
    }
}

impl UdpFrameEncoder {
    /// Whether the text that is kept belongs to the address that it is kept for.
    pub closed spec fn wf(self) -> bool {
        self.cached_ip matches Some(ip) ==> self.dgram.peer_addr@ == ip_text(ip@)
    }

    /// A new encoder.
    pub fn new() -> (r: Self)
        ensures
            r.wf(),
    {
        UdpFrameEncoder {
            dgram: UdpDatagram { data: Vec::new(), peer_addr: String::new(), peer_port: 0 },
            cached_ip: None,
            out: Vec::new(),
        }
    }

    /// The bytes to send for a datagram: the same as for an envelope with that datagram,
    /// whatever was framed before.
    pub fn frame(&mut self, peer: SocketAddr, payload: &[u8]) -> (r: &[u8])
        requires
            old(self).wf(),
        ensures
            final(self).wf(),
            r@ == framed(
                envelope_bytes(
                    Some(PayloadValue::UdpDatagram(datagram(peer, payload@))),
                    Seq::empty(),
                ),
            ),
    {
        let known = match &self.cached_ip {
            Some(ip) => ip.same_as(&peer.ip),
            None => false,
        };
        if !known {
            self.dgram.peer_addr = format_ip(&peer.ip);
            self.cached_ip = Some(peer.ip);
        }
        self.dgram.peer_port = peer.port as u32;
        self.dgram.data.clear();
        push_all(&mut self.dgram.data, payload);
        assert(self.dgram.data@ =~= payload@);
        let mut body: Vec<u8> = Vec::new();
        self.dgram.put(&mut body);
        assert(body@ =~= fields_bytes(udp_datagram_fields(self.dgram@)));
        let mut env: Vec<u8> = Vec::new();
        write_bytes_field(&mut env, 12, body.as_slice());
        assert(env@ =~= envelope_bytes(
            Some(PayloadValue::UdpDatagram(datagram(peer, payload@))),
            Seq::empty(),
        ));
        self.out = frame(env.as_slice());
        self.out.as_slice()
    }
}

/// A framed datagram is read back as it was framed, whatever follows it on the stream.
pub proof fn law_datagram_round_trip(peer: SocketAddr, payload: Seq<u8>, rest: Seq<u8>)
    requires
        envelope_bytes(
            Some(PayloadValue::UdpDatagram(datagram(peer, payload))),
            Seq::empty(),
        ).len() <= MAX_MESSAGE,
    ensures
        ({
            let p = Some(PayloadValue::UdpDatagram(datagram(peer, payload)));
            let data = framed(envelope_bytes(p, Seq::empty())) + rest;
            &&& data.len() >= 4 + announced(data)
            &&& decoded(data.subrange(4, (4 + announced(data)) as int)) == Some(p)
        }),
{
    let p = Some(PayloadValue::UdpDatagram(datagram(peer, payload)));
    let none = Seq::<(u32, u64)>::empty();
    assert(lists(none, envelope_acks(p)));
    assert(is_encoding(p, envelope_bytes(p, none)));
    law_msg_round_trip(p, envelope_bytes(p, none), rest);
}

// ---------------------------------------------------------------------------
// Where a forward listens, and what its text says
// ---------------------------------------------------------------------------

/// A forward listens where it was asked to: on an explicit address that is not a wildcard, on
/// that address and no other, whatever the gateway flag; with a wildcard on every address.
/// Only where no address is given does the flag count: with it on every address, without it on
/// the two loopback addresses.
pub proof fn law_listens_where_asked(addr: Seq<char>, gateway: bool)
    ensures
        addr.len() > 0 && addr != "*"@ && addr != "0.0.0.0"@ && addr != "::"@ ==> bind_targets(
            Some(addr),
            gateway,
        ) == seq![addr],
        addr.len() == 0 || addr == "*"@ || addr == "0.0.0.0"@ || addr == "::"@ ==> bind_targets(
            Some(addr),
            gateway,
        ) == seq!["[::]"@],
        bind_targets(None, true) == seq!["[::]"@],
        bind_targets(None, false) == seq!["127.0.0.1"@, "[::1]"@],
{
}

/// A port is a decimal number up to 65535, and no larger one is a port.
pub proof fn law_ports(n: nat)
    ensures
        n <= 65535 ==> port_of(decimal(n)) == Some(n as u16),
        n > 65535 ==> port_of(decimal(n)) is None,
{
    lemma_decimal_value(n);
    assert(decimal(n)[0] != '+') by {
        assert(crate::text::is_digit(decimal(n)[0]));
    }
}

/// The parts of the text of a specification, without its protocol.
proof fn lemma_base_parts(v: ForwardValue)
    requires
        writable(v),
    ensures
        ({
            let s = forward_text(v);
            let base = s.take(s.len() - 4);
            &&& s.len() >= 4
            &&& base.len() > 0
            &&& crate::text::is_digit(base.last())
            &&& bracket_parts(base) == (match v.bind_address {
                Some(b) => seq![
                    b,
                    decimal(v.local_port as nat),
                    v.remote_host,
                    decimal(v.remote_port as nat),
                ],
                None => seq![
                    decimal(v.local_port as nat),
                    v.remote_host,
                    decimal(v.remote_port as nat),
                ],
            })
        }),
{
    reveal_strlit("/tcp");
    reveal_strlit("/udp");
    reveal_strlit(":");
    let suffix = match v.proto {
        ForwardProto::Tcp => "/tcp"@,
        ForwardProto::Udp => "/udp"@,
    };
    let local = decimal(v.local_port as nat);
    let remote = decimal(v.remote_port as nat);
    lemma_decimal_value(v.local_port as nat);
    lemma_decimal_value(v.remote_port as nat);
    lemma_digits_plain(local);
    lemma_digits_plain(remote);
    lemma_plain_part(local);
    lemma_plain_part(remote);
    let tail = v.remote_host + ":"@ + remote;
    lemma_parts_join(v.remote_host, remote);
    let mid = local + ":"@ + tail;
    lemma_parts_join(local, tail);
    let base = match v.bind_address {
        Some(b) => b + ":"@ + mid,
        None => mid,
    };
    if let Some(b) = v.bind_address {
        lemma_parts_join(b, mid);
    }
    let s = forward_text(v);
    assert(s =~= base + suffix);
    assert(s.take(s.len() - 4) =~= base);
    assert(base.last() == remote[remote.len() - 1]);
    let p = bracket_parts(base);
    if let Some(b) = v.bind_address {
        assert(p =~= seq![b, local, v.remote_host, remote]);
    } else {
        assert(p =~= seq![local, v.remote_host, remote]);
    }
}

/// TCP is forwarded where no protocol is given: without its protocol the text of a
/// specification says the same, with TCP.
pub proof fn law_protocol_defaults_to_tcp(v: ForwardValue)
    requires
        writable(v),
    ensures
        ({
            let s = forward_text(v);
            parsed_forward(s.take(s.len() - 4)) == Ok::<ForwardValue, Seq<char>>(
                ForwardValue { proto: ForwardProto::Tcp, ..v },
            )
        }),
{
    lemma_base_parts(v);
    let s = forward_text(v);
    let base = s.take(s.len() - 4);
    reveal_strlit("/tcp");
    reveal_strlit("/udp");
    if ends_with(base, "/tcp"@) || ends_with(base, "/udp"@) {
        let n = base.len();
        assert(base.skip(n - 4)[3] == base[n - 1]);
        assert(base.last() == 'p');
    }
    lemma_decimal_value(v.local_port as nat);
    lemma_decimal_value(v.remote_port as nat);
}

/// UDP is forwarded if and only if the specification ends in `/udp`, and what is forwarded to
/// has a name.
pub proof fn law_protocol_by_suffix(s: Seq<char>)
    ensures
        parsed_forward(s) matches Ok(v) ==> {
            &&& v.proto == ForwardProto::Udp <==> s.len() >= 4 && s.skip(s.len() - 4) == seq![
                '/',
                'u',
                'd',
                'p',
            ]
            &&& v.remote_host.len() > 0
        },
{
    reveal_strlit("/udp");
    assert("/udp"@ =~= seq!['/', 'u', 'd', 'p']);
}

/// The text of a specification is its parts with colons between, and the protocol behind a
/// slash.
pub proof fn law_forward_text(bind: Seq<char>, local: u16, host: Seq<char>, remote: u16)
    ensures
        forward_text(
            ForwardValue {
                bind_address: None,
                local_port: local,
                remote_host: host,
                remote_port: remote,
                proto: ForwardProto::Tcp,
            },
        ) == decimal(local as nat) + ":"@ + host + ":"@ + decimal(remote as nat) + "/tcp"@,
        forward_text(
            ForwardValue {
                bind_address: Some(bind),
                local_port: local,
                remote_host: host,
                remote_port: remote,
                proto: ForwardProto::Udp,
            },
        ) == bind + ":"@ + decimal(local as nat) + ":"@ + host + ":"@ + decimal(remote as nat)
            + "/udp"@,
{
    assert(Seq::<char>::empty() + decimal(local as nat) =~= decimal(local as nat));
}

/// A datagram carries its payload, and the address and port of its sender; a reply goes to
/// that port, where it is one.
pub proof fn law_datagram_carries_peer(
    peer: SocketAddr,
    payload: Seq<u8>,
    ip: Option<IpAddress>,
    port: u32,
    r: Option<SocketAddr>,
)
    requires
        call_ensures(peer_from_ip, (ip, port), r),
    ensures
        datagram(peer, payload).data == payload,
        datagram(peer, payload).peer_addr == ip_text(peer.ip@),
        datagram(peer, payload).peer_port == peer.port,
        r is Some <==> ip is Some && 1 <= port <= 65535,
        r matches Some(a) ==> Some(a.ip) == ip && a.port == port && a.flowinfo == 0 && a.scope_id
            == 0,
{
}

/// Colons between square brackets separate nothing: an address in brackets is one part, and so
/// is text without colons and brackets; a colon outside brackets separates.
pub proof fn law_brackets_hold_together(addr: Seq<char>, a: Seq<char>, b: Seq<char>)
    requires
        forall|i: int| 0 <= i < addr.len() ==> addr[i] != '[' && addr[i] != ']',
        is_part(a),
        is_part(b),
    ensures
        is_part(seq!['['] + addr + seq![']']),
        bracket_parts(a + ":"@ + b) == seq![a, b],
{
    lemma_open_bracket(addr);
    let open = seq!['['] + addr;
    let s = seq!['['] + addr + seq![']'];
    assert(s.drop_last() =~= open);
    assert(seq![open].drop_last() =~= Seq::empty());
    assert(open.push(']') =~= s);
    assert(bracket_parts(s) =~= seq![s]);
    lemma_parts_join(a, b);
    assert(bracket_parts(a + ":"@ + b) =~= seq![a, b]);
}

proof fn lemma_open_bracket(addr: Seq<char>)
    requires
        forall|i: int| 0 <= i < addr.len() ==> addr[i] != '[' && addr[i] != ']',
    ensures
        in_brackets(seq!['['] + addr),
        bracket_parts(seq!['['] + addr) == seq![seq!['['] + addr],
    decreases addr.len(),
{
    let s = seq!['['] + addr;
    if addr.len() == 0 {
        assert(s =~= seq!['[']);
        assert(s.drop_last() =~= Seq::empty());
        assert(bracket_parts(s.drop_last()) =~= seq![Seq::empty()]);
        assert(seq![Seq::<char>::empty()].drop_last() =~= Seq::empty());
        assert(Seq::<char>::empty().push('[') =~= s);
        assert(bracket_parts(s) =~= seq![s]);
    } else {
        let init = addr.drop_last();
        assert(s.drop_last() =~= seq!['['] + init);
        assert forall|i: int| 0 <= i < init.len() implies init[i] != '[' && init[i] != ']' by {
            assert(init[i] == addr[i]);
        }
        lemma_open_bracket(init);
        assert(s.last() == addr[addr.len() - 1]);
        assert(seq![s.drop_last()].drop_last() =~= Seq::empty());
        assert(s.drop_last().push(s.last()) =~= s);
        assert(bracket_parts(s) =~= seq![s]);
    }
}

/// A specification is refused where it has not three or four parts, where a port is none, and
/// where the host is empty, and the message holds the specification; nothing else is refused.
pub proof fn law_spec_refused_exactly(s: Seq<char>)
    ensures
        ({
            let p = bracket_parts(spec_base(s));
            let n = p.len() as int;
            parsed_forward(s) is Ok <==> {
                &&& n == 3 || n == 4
                &&& port_of(p[n - 3]) is Some
                &&& port_of(p[n - 1]) is Some
                &&& p[n - 2].len() > 0
            }
        }),
        parsed_forward(s) matches Ok(v) ==> (v.bind_address is Some <==> bracket_parts(
            spec_base(s),
        ).len() == 4),
{
}

} // verus!
