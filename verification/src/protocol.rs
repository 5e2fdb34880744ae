//! The messages that client and server exchange.
//!
//! A datagram starts with a plain [`PacketHeader`]; behind it, and on the streams of a
//! QUIC connection, messages travel as protobuf [`Envelope`]s.
use std::collections::HashMap;

use vstd::prelude::*;
use vstd::utf8::encode_utf8;

use crate::bytes::{be_bytes, lemma_be_u64, lemma_be_value_bytes, push_all, u64_from_be, u64_to_be};
use crate::fields::{
    ack_fields, ack_map, byte_string, bytes_field, get_ack_map, get_bytes, get_number,
    get_number_list, get_text, get_text_list, group_sendable, group_with_tag, lemma_acks_back,
    lemma_append_fields, lemma_bytes_back, lemma_field_sizes, lemma_number_back, lemma_one_field,
    lemma_packed_back, lemma_text_back, lemma_texts_back, lists, low32, map_of, number,
    number_field, number_list, packed_bytes, put_ack_map, put_bytes, put_number, put_packed,
    put_text_list, sendable, text_field, text_fields, text_list, with_tag,
};
use crate::text::texts;
use crate::wire::{
    field_bytes, field_values, fields, fields_bytes, law_fields_round_trip, read_fields,
    writable_field, write_bytes_field, Field, Val, WireValue, RECURSION_LIMIT,
};

verus! {

// ---------------------------------------------------------------------------
// Enumerations
// ---------------------------------------------------------------------------

/// What a stream carries.
#[derive(Debug, Clone, Copy, PartialEq, Eq, Structural)]
pub enum StreamType {
    /// The terminal.
    Terminal,
    /// A forwarded port.
    PortForward,
    /// An X11 connection.
    X11,
}

/// The protocol that a forward carries.
#[derive(Debug, Clone, Copy, PartialEq, Eq, Structural)]
pub enum ForwardProto {
    /// TCP.
    Tcp,
    /// UDP.
    Udp,
}

impl StreamType {
    /// The number that stands for this type in a message.
    pub open spec fn number(self) -> i32 {
        match self {
            StreamType::Terminal => 0,
            StreamType::PortForward => 1,
            StreamType::X11 => 2,
        }
    }

    /// The number that stands for this type in a message.
    pub fn as_i32(self) -> (r: i32)
        ensures
            r == self.number(),
    {
        match self {
            StreamType::Terminal => 0,
            StreamType::PortForward => 1,
            StreamType::X11 => 2,
        }
    }
}

impl ForwardProto {
    /// The number that stands for this protocol in a message.
    pub open spec fn number(self) -> i32 {
        match self {
            ForwardProto::Tcp => 0,
            ForwardProto::Udp => 1,
        }
    }

    /// The number that stands for this protocol in a message.
    pub fn as_i32(self) -> (r: i32)
        ensures
            r == self.number(),
    {
        match self {
            ForwardProto::Tcp => 0,
            ForwardProto::Udp => 1,
        }
    }
}

// ---------------------------------------------------------------------------
// The header of a datagram
// ---------------------------------------------------------------------------

/// The protocol version that this library speaks.
pub const PROTOCOL_VERSION: u8 = 1;

/// The flag of a handshake packet.
pub const FLAG_HANDSHAKE: u8 = 1;

/// The length of a [`PacketHeader`].
pub const HEADER_SIZE: usize = 26;

/// The plain header of a datagram.
#[derive(Debug, Clone, Copy, PartialEq, Eq)]
pub struct PacketHeader {
    /// The protocol version.
    pub version: u8,
    /// Flags.
    pub flags: u8,
    /// The session that the datagram belongs to.
    pub session_id: [u8; 16],
    /// The number of the datagram, which is also the nonce of its encryption.
    pub packet_seq: u64,
}

/// How a header is written.
pub open spec fn header_bytes(h: PacketHeader) -> Seq<u8> {
    seq![h.version, h.flags] + h.session_id@ + be_bytes(h.packet_seq as nat, 8)
}

/// Whether `data` begins with a header of the version that this library speaks.
pub open spec fn has_header(data: Seq<u8>) -> bool {
    data.len() >= HEADER_SIZE && data[0] == PROTOCOL_VERSION
}

impl PacketHeader {
    /// A header of this library's version.
    pub fn new(flags: u8, session_id: [u8; 16], packet_seq: u64) -> (r: PacketHeader)
        ensures
            r == (PacketHeader { version: PROTOCOL_VERSION, flags, session_id, packet_seq }),
    {
        PacketHeader { version: PROTOCOL_VERSION, flags, session_id, packet_seq }
    }

    /// The bytes of the header.
    pub fn encode(&self) -> (r: Vec<u8>)
        ensures
            r@ == header_bytes(*self),
            r@.len() == HEADER_SIZE,
    {
        let mut r: Vec<u8> = Vec::new();
        r.push(self.version);
        r.push(self.flags);
        push_all(&mut r, self.session_id.as_slice());
        push_all(&mut r, u64_to_be(self.packet_seq).as_slice());
        assert(r@ =~= header_bytes(*self));
        r
    }

    /// Reads the header at the start of `data`. `None` where the data is too short or the
    /// version is another one.
    pub fn decode(data: &[u8]) -> (r: Option<PacketHeader>)
        ensures
            r is Some <==> has_header(data@),
            r matches Some(h) ==> header_bytes(h) == data@.take(HEADER_SIZE as int),
    {
        if data.len() < HEADER_SIZE || data[0] != PROTOCOL_VERSION {
            return None;
        }
        let mut session_id: [u8; 16] = [0; 16];
        for i in 0..16
            invariant
                data@.len() >= HEADER_SIZE,
                forall|j: int| 0 <= j < i ==> session_id@[j] == data@[j + 2],
        {
            session_id[i] = data[i + 2];
        }
        let packet_seq: u64 = u64_from_be(&data[18..26]);
        let h = PacketHeader { version: data[0], flags: data[1], session_id, packet_seq };
        proof {
            let tail = data@.subrange(18, 26);
            lemma_be_value_bytes(tail);
            assert(data@.take(HEADER_SIZE as int).subrange(18, 26) =~= tail);
            assert(header_bytes(h) =~= data@.take(HEADER_SIZE as int));
        }
        Some(h)
    }

    /// Whether the datagram is part of a handshake.
    pub fn is_handshake(&self) -> (r: bool)
        ensures
            r == (self.flags % 2 == 1),
    {
        self.flags % 2 == 1
    }
}

/// Two headers that are written alike are the same.
pub proof fn law_header_injective(a: PacketHeader, b: PacketHeader)
    requires
        header_bytes(a) == header_bytes(b),
    ensures
        a.version == b.version,
        a.flags == b.flags,
        a.session_id@ == b.session_id@,
        a.packet_seq == b.packet_seq,
{
    lemma_be_u64(a.packet_seq);
    lemma_be_u64(b.packet_seq);
    let x = header_bytes(a);
    let y = header_bytes(b);
    assert(x[0] == a.version && x[1] == a.flags);
    assert(y[0] == b.version && y[1] == b.flags);
    assert(x.subrange(2, 18) =~= a.session_id@);
    assert(y.subrange(2, 18) =~= b.session_id@);
    assert(x.subrange(18, 26) =~= be_bytes(a.packet_seq as nat, 8));
    assert(y.subrange(18, 26) =~= be_bytes(b.packet_seq as nat, 8));
}

// ---------------------------------------------------------------------------
// Numbers in fields
// ---------------------------------------------------------------------------

/// The number that a signed 32-bit number is sent as: its two's complement in 64 bits.
pub open spec fn i32_bits(v: i32) -> u64 {
    if v >= 0 {
        v as u64
    } else {
        (0x1_0000_0000_0000_0000 + v) as u64
    }
}

/// The signed 32-bit number that the low 32 bits of `v` stand for.
pub open spec fn low_i32(v: u64) -> i32 {
    if low32(v) < 0x8000_0000 {
        low32(v) as i32
    } else {
        (low32(v) - 0x1_0000_0000) as i32
    }
}

/// The number that a truth value is sent as.
pub open spec fn bool_bits(v: bool) -> u64 {
    if v {
        1
    } else {
        0
    }
}

/// The number that a signed 32-bit number is sent as.
fn from_i32(v: i32) -> (r: u64)
    ensures
        r == i32_bits(v),
{
    if v >= 0 {
        v as u64
    } else {
        u64::MAX - ((-1 - v as i64) as u64)
    }
}

/// The signed 32-bit number that the low 32 bits of `v` stand for.
fn to_i32(v: u64) -> (r: i32)
    ensures
        r == low_i32(v),
{
    let low: i64 = (v % 0x1_0000_0000) as i64;
    if low < 0x8000_0000 {
        low as i32
    } else {
        (low - 0x1_0000_0000) as i32
    }
}

// ---------------------------------------------------------------------------
// Messages
// ---------------------------------------------------------------------------

/// The client's opening message.
#[derive(Debug, PartialEq, Eq)]
pub struct ClientHello {
    /// The protocol version that the client speaks.
    pub protocol_version: u32,
    /// The session that the client wants, sixteen bytes.
    pub session_id: Vec<u8>,
    /// The cipher suites that the client offers, most preferred first.
    pub cipher_suites: Vec<u32>,
    /// The client's nonce, thirty-two bytes.
    pub client_nonce: Vec<u8>,
    /// The client's ephemeral public key, for the first suite offered.
    pub kem_public_key: Vec<u8>,
    /// What the client has received, per stream.
    pub last_received_seq: HashMap<u32, u64>,
}

/// The value of a [`ClientHello`].
pub struct ClientHelloValue {
    /// The protocol version that the client speaks.
    pub protocol_version: u32,
    /// The session that the client wants, sixteen bytes.
    pub session_id: Seq<u8>,
    /// The cipher suites that the client offers, most preferred first.
    pub cipher_suites: Seq<u32>,
    /// The client's nonce, thirty-two bytes.
    pub client_nonce: Seq<u8>,
    /// The client's ephemeral public key, for the first suite offered.
    pub kem_public_key: Seq<u8>,
    /// What the client has received, per stream.
    pub last_received_seq: Map<u32, u64>,
}

/// The [`ClientHello`] that fields make.
pub open spec fn client_hello_of(fs: Seq<(u32, Val)>) -> Option<ClientHelloValue> {
    match (
        number(fs, 1),
        byte_string(fs, 2),
        number_list(fs, 3),
        byte_string(fs, 4),
        byte_string(fs, 5),
        ack_map(fs, 6),
    ) {
        (
            Some(protocol_version),
            Some(session_id),
            Some(cipher_suites),
            Some(client_nonce),
            Some(kem_public_key),
            Some(last_received_seq),
        ) => Some(
            ClientHelloValue {
                protocol_version: low32(protocol_version),
                session_id,
                cipher_suites,
                client_nonce,
                kem_public_key,
                last_received_seq,
            },
        ),
        _ => None,
    }
}

/// The fields of a [`ClientHello`], its acknowledgements in the order of `entries`.
pub open spec fn client_hello_fields(
    m: ClientHelloValue,
    entries: Seq<(u32, u64)>,
) -> Seq<(u32, Val)> {
    number_field(1, m.protocol_version as u64) + bytes_field(2, m.session_id)
        + bytes_field(3, packed_bytes(m.cipher_suites)) + bytes_field(4, m.client_nonce)
        + bytes_field(5, m.kem_public_key) + ack_fields(6, entries)
}

impl ClientHello {
    /// The value of the message.
    pub open spec fn view(self) -> ClientHelloValue {
        ClientHelloValue {
            protocol_version: self.protocol_version,
            session_id: self.session_id@,
            cipher_suites: self.cipher_suites@,
            client_nonce: self.client_nonce@,
            kem_public_key: self.kem_public_key@,
            last_received_seq: self.last_received_seq@,
        }
    }

    /// Reads the message from its fields.
    fn from_fields(fs: &Vec<Field>) -> (r: Option<Self>)
        ensures
            match r {
                Some(m) => client_hello_of(field_values(fs@)) == Some(m@),
                None => client_hello_of(field_values(fs@)) is None,
            },
    {
        match (
            get_number(fs, 1),
            get_bytes(fs, 2),
            get_number_list(fs, 3),
            get_bytes(fs, 4),
            get_bytes(fs, 5),
            get_ack_map(fs, 6),
        ) {
            (
                Some(protocol_version),
                Some(session_id),
                Some(cipher_suites),
                Some(client_nonce),
                Some(kem_public_key),
                Some(last_received_seq),
            ) => Some(
                ClientHello {
                    protocol_version: (protocol_version % 0x1_0000_0000) as u32,
                    session_id,
                    cipher_suites,
                    client_nonce,
                    kem_public_key,
                    last_received_seq,
                },
            ),
            _ => None,
        }
    }

    /// Appends the message's fields.
    pub(crate) fn put(&self, out: &mut Vec<u8>)
        ensures
            exists|entries: Seq<(u32, u64)>| #[trigger]
                lists(entries, self.last_received_seq@) && final(out)@ == old(out)@ + fields_bytes(
                    client_hello_fields(self@, entries),
                ),
    {
        let ghost start = out@;
        put_number(out, 1, self.protocol_version as u64);
        let ghost mut acc = number_field(1, self.protocol_version as u64);
        put_bytes(out, 2, self.session_id.as_slice());
        proof {
            let next = bytes_field(2, self.session_id@);
            lemma_append_fields(start, acc, next);
            acc = acc + next;
        }
        put_packed(out, 3, &self.cipher_suites);
        proof {
            let next = bytes_field(3, packed_bytes(self.cipher_suites@));
            lemma_append_fields(start, acc, next);
            acc = acc + next;
        }
        put_bytes(out, 4, self.client_nonce.as_slice());
        proof {
            let next = bytes_field(4, self.client_nonce@);
            lemma_append_fields(start, acc, next);
            acc = acc + next;
        }
        put_bytes(out, 5, self.kem_public_key.as_slice());
        proof {
            let next = bytes_field(5, self.kem_public_key@);
            lemma_append_fields(start, acc, next);
            acc = acc + next;
        }
        let ghost before = out@;
        put_ack_map(out, 6, &self.last_received_seq);
        let ghost entries = choose|entries: Seq<(u32, u64)>| #[trigger]
            lists(entries, self.last_received_seq@) && out@ == before + fields_bytes(
                ack_fields(6, entries),
            );
        proof {
            let next = ack_fields(6, entries);
            lemma_append_fields(start, acc, next);
            acc = acc + next;
        }
        assert(acc == client_hello_fields(self@, entries));
    }
}

proof fn lemma_client_hello_back(m: ClientHelloValue, entries: Seq<(u32, u64)>)
    requires
        map_of(entries) == m.last_received_seq,
    ensures
        client_hello_of(client_hello_fields(m, entries)) == Some(m),
        sendable(client_hello_fields(m, entries)),
{
    broadcast use {group_with_tag, group_sendable};

    let fs = client_hello_fields(m, entries);
    assert(with_tag(fs, 1) =~= number_field(1, m.protocol_version as u64));
    lemma_number_back(fs, 1, m.protocol_version as u64);
    assert(with_tag(fs, 2) =~= bytes_field(2, m.session_id));
    lemma_bytes_back(fs, 2, m.session_id);
    assert(with_tag(fs, 3) =~= bytes_field(3, packed_bytes(m.cipher_suites)));
    lemma_packed_back(fs, 3, m.cipher_suites);
    assert(with_tag(fs, 4) =~= bytes_field(4, m.client_nonce));
    lemma_bytes_back(fs, 4, m.client_nonce);
    assert(with_tag(fs, 5) =~= bytes_field(5, m.kem_public_key));
    lemma_bytes_back(fs, 5, m.kem_public_key);
    assert(with_tag(fs, 6) =~= ack_fields(6, entries));
    lemma_acks_back(fs, 6, entries);
}

/// The server's answer to a `ClientHello`.
#[derive(Debug, PartialEq, Eq)]
pub struct ServerHello {
    /// The cipher suite that the server chose.
    pub chosen_suite: u32,
    /// The server's nonce, thirty-two bytes.
    pub server_nonce: Vec<u8>,
    /// The shared secret, encapsulated to the client's key.
    pub kem_ciphertext: Vec<u8>,
    /// What the server has received, per stream.
    pub last_received_seq: HashMap<u32, u64>,
}

/// The value of a [`ServerHello`].
pub struct ServerHelloValue {
    /// The cipher suite that the server chose.
    pub chosen_suite: u32,
    /// The server's nonce, thirty-two bytes.
    pub server_nonce: Seq<u8>,
    /// The shared secret, encapsulated to the client's key.
    pub kem_ciphertext: Seq<u8>,
    /// What the server has received, per stream.
    pub last_received_seq: Map<u32, u64>,
}

/// The [`ServerHello`] that fields make.
pub open spec fn server_hello_of(fs: Seq<(u32, Val)>) -> Option<ServerHelloValue> {
    match (number(fs, 1), byte_string(fs, 2), byte_string(fs, 3), ack_map(fs, 4)) {
        (
            Some(chosen_suite),
            Some(server_nonce),
            Some(kem_ciphertext),
            Some(last_received_seq),
        ) => Some(
            ServerHelloValue {
                chosen_suite: low32(chosen_suite),
                server_nonce,
                kem_ciphertext,
                last_received_seq,
            },
        ),
        _ => None,
    }
}

/// The fields of a [`ServerHello`], its acknowledgements in the order of `entries`.
pub open spec fn server_hello_fields(
    m: ServerHelloValue,
    entries: Seq<(u32, u64)>,
) -> Seq<(u32, Val)> {
    number_field(1, m.chosen_suite as u64) + bytes_field(2, m.server_nonce)
        + bytes_field(3, m.kem_ciphertext) + ack_fields(4, entries)
}

impl ServerHello {
    /// The value of the message.
    pub open spec fn view(self) -> ServerHelloValue {
        ServerHelloValue {
            chosen_suite: self.chosen_suite,
            server_nonce: self.server_nonce@,
            kem_ciphertext: self.kem_ciphertext@,
            last_received_seq: self.last_received_seq@,
        }
    }

    /// Reads the message from its fields.
    fn from_fields(fs: &Vec<Field>) -> (r: Option<Self>)
        ensures
            match r {
                Some(m) => server_hello_of(field_values(fs@)) == Some(m@),
                None => server_hello_of(field_values(fs@)) is None,
            },
    {
        match (get_number(fs, 1), get_bytes(fs, 2), get_bytes(fs, 3), get_ack_map(fs, 4)) {
            (
                Some(chosen_suite),
                Some(server_nonce),
                Some(kem_ciphertext),
                Some(last_received_seq),
            ) => Some(
                ServerHello {
                    chosen_suite: (chosen_suite % 0x1_0000_0000) as u32,
                    server_nonce,
                    kem_ciphertext,
                    last_received_seq,
                },
            ),
            _ => None,
        }
    }

    /// Appends the message's fields.
    pub(crate) fn put(&self, out: &mut Vec<u8>)
        ensures
            exists|entries: Seq<(u32, u64)>| #[trigger]
                lists(entries, self.last_received_seq@) && final(out)@ == old(out)@ + fields_bytes(
                    server_hello_fields(self@, entries),
                ),
    {
        let ghost start = out@;
        put_number(out, 1, self.chosen_suite as u64);
        let ghost mut acc = number_field(1, self.chosen_suite as u64);
        put_bytes(out, 2, self.server_nonce.as_slice());
        proof {
            let next = bytes_field(2, self.server_nonce@);
            lemma_append_fields(start, acc, next);
            acc = acc + next;
        }
        put_bytes(out, 3, self.kem_ciphertext.as_slice());
        proof {
            let next = bytes_field(3, self.kem_ciphertext@);
            lemma_append_fields(start, acc, next);
            acc = acc + next;
        }
        let ghost before = out@;
        put_ack_map(out, 4, &self.last_received_seq);
        let ghost entries = choose|entries: Seq<(u32, u64)>| #[trigger]
            lists(entries, self.last_received_seq@) && out@ == before + fields_bytes(
                ack_fields(4, entries),
            );
        proof {
            let next = ack_fields(4, entries);
            lemma_append_fields(start, acc, next);
            acc = acc + next;
        }
        assert(acc == server_hello_fields(self@, entries));
    }
}

proof fn lemma_server_hello_back(m: ServerHelloValue, entries: Seq<(u32, u64)>)
    requires
        map_of(entries) == m.last_received_seq,
    ensures
        server_hello_of(server_hello_fields(m, entries)) == Some(m),
        sendable(server_hello_fields(m, entries)),
{
    broadcast use {group_with_tag, group_sendable};

    let fs = server_hello_fields(m, entries);
    assert(with_tag(fs, 1) =~= number_field(1, m.chosen_suite as u64));
    lemma_number_back(fs, 1, m.chosen_suite as u64);
    assert(with_tag(fs, 2) =~= bytes_field(2, m.server_nonce));
    lemma_bytes_back(fs, 2, m.server_nonce);
    assert(with_tag(fs, 3) =~= bytes_field(3, m.kem_ciphertext));
    lemma_bytes_back(fs, 3, m.kem_ciphertext);
    assert(with_tag(fs, 4) =~= ack_fields(4, entries));
    lemma_acks_back(fs, 4, entries);
}

/// Opens a forwarded stream.
#[derive(Debug, PartialEq, Eq)]
pub struct StreamOpen {
    /// The stream's number.
    pub stream_id: u32,
    /// What the stream carries: the number of a [`StreamType`].
    pub stream_type: i32,
    /// The host to forward to.
    pub remote_host: String,
    /// The port to forward to.
    pub remote_port: u32,
    /// What is forwarded: the number of a [`ForwardProto`].
    pub forward_proto: i32,
}

/// The value of a [`StreamOpen`].
pub struct StreamOpenValue {
    /// The stream's number.
    pub stream_id: u32,
    /// What the stream carries: the number of a [`StreamType`].
    pub stream_type: i32,
    /// The host to forward to.
    pub remote_host: Seq<char>,
    /// The port to forward to.
    pub remote_port: u32,
    /// What is forwarded: the number of a [`ForwardProto`].
    pub forward_proto: i32,
}

/// The [`StreamOpen`] that fields make.
pub open spec fn stream_open_of(fs: Seq<(u32, Val)>) -> Option<StreamOpenValue> {
    match (number(fs, 1), number(fs, 2), text_field(fs, 3), number(fs, 4), number(fs, 5)) {
        (
            Some(stream_id),
            Some(stream_type),
            Some(remote_host),
            Some(remote_port),
            Some(forward_proto),
        ) => Some(
            StreamOpenValue {
                stream_id: low32(stream_id),
                stream_type: low_i32(stream_type),
                remote_host,
                remote_port: low32(remote_port),
                forward_proto: low_i32(forward_proto),
            },
        ),
        _ => None,
    }
}

/// The fields of a [`StreamOpen`].
pub open spec fn stream_open_fields(m: StreamOpenValue) -> Seq<(u32, Val)> {
    number_field(1, m.stream_id as u64) + number_field(2, i32_bits(m.stream_type))
        + bytes_field(3, encode_utf8(m.remote_host)) + number_field(4, m.remote_port as u64)
        + number_field(5, i32_bits(m.forward_proto))
}

impl StreamOpen {
    /// The value of the message.
    pub open spec fn view(self) -> StreamOpenValue {
        StreamOpenValue {
            stream_id: self.stream_id,
            stream_type: self.stream_type,
            remote_host: self.remote_host@,
            remote_port: self.remote_port,
            forward_proto: self.forward_proto,
        }
    }

    /// Reads the message from its fields.
    fn from_fields(fs: &Vec<Field>) -> (r: Option<Self>)
        ensures
            match r {
                Some(m) => stream_open_of(field_values(fs@)) == Some(m@),
                None => stream_open_of(field_values(fs@)) is None,
            },
    {
        match (
            get_number(fs, 1),
            get_number(fs, 2),
            get_text(fs, 3),
            get_number(fs, 4),
            get_number(fs, 5),
        ) {
            (
                Some(stream_id),
                Some(stream_type),
                Some(remote_host),
                Some(remote_port),
                Some(forward_proto),
            ) => Some(
                StreamOpen {
                    stream_id: (stream_id % 0x1_0000_0000) as u32,
                    stream_type: to_i32(stream_type),
                    remote_host,
                    remote_port: (remote_port % 0x1_0000_0000) as u32,
                    forward_proto: to_i32(forward_proto),
                },
            ),
            _ => None,
        }
    }

    /// Appends the message's fields.
    pub(crate) fn put(&self, out: &mut Vec<u8>)
        ensures
            final(out)@ == old(out)@ + fields_bytes(stream_open_fields(self@)),
    {
        let ghost start = out@;
        put_number(out, 1, self.stream_id as u64);
        let ghost mut acc = number_field(1, self.stream_id as u64);
        put_number(out, 2, from_i32(self.stream_type));
        proof {
            let next = number_field(2, i32_bits(self.stream_type));
            lemma_append_fields(start, acc, next);
            acc = acc + next;
        }
        put_bytes(out, 3, self.remote_host.as_str().as_bytes());
        proof {
            let next = bytes_field(3, encode_utf8(self.remote_host@));
            lemma_append_fields(start, acc, next);
            acc = acc + next;
        }
        put_number(out, 4, self.remote_port as u64);
        proof {
            let next = number_field(4, self.remote_port as u64);
            lemma_append_fields(start, acc, next);
            acc = acc + next;
        }
        put_number(out, 5, from_i32(self.forward_proto));
        proof {
            let next = number_field(5, i32_bits(self.forward_proto));
            lemma_append_fields(start, acc, next);
            acc = acc + next;
        }
        assert(acc == stream_open_fields(self@));
    }
}

proof fn lemma_stream_open_back(m: StreamOpenValue)
    ensures
        stream_open_of(stream_open_fields(m)) == Some(m),
        sendable(stream_open_fields(m)),
{
    broadcast use {group_with_tag, group_sendable};

    let fs = stream_open_fields(m);
    assert(with_tag(fs, 1) =~= number_field(1, m.stream_id as u64));
    lemma_number_back(fs, 1, m.stream_id as u64);
    assert(with_tag(fs, 2) =~= number_field(2, i32_bits(m.stream_type)));
    lemma_number_back(fs, 2, i32_bits(m.stream_type));
    assert(with_tag(fs, 3) =~= bytes_field(3, encode_utf8(m.remote_host)));
    lemma_text_back(fs, 3, m.remote_host);
    assert(with_tag(fs, 4) =~= number_field(4, m.remote_port as u64));
    lemma_number_back(fs, 4, m.remote_port as u64);
    assert(with_tag(fs, 5) =~= number_field(5, i32_bits(m.forward_proto)));
    lemma_number_back(fs, 5, i32_bits(m.forward_proto));
}

/// Closes a stream.
#[derive(Debug, Clone, Copy, PartialEq, Eq)]
pub struct StreamClose {
    /// The stream's number.
    pub stream_id: u32,
    /// Why it closes; zero for a clean close.
    pub error_code: u32,
}

/// The [`StreamClose`] that fields make.
pub open spec fn stream_close_of(fs: Seq<(u32, Val)>) -> Option<StreamClose> {
    match (number(fs, 1), number(fs, 2)) {
        (Some(stream_id), Some(error_code)) => Some(
            StreamClose {
                stream_id: low32(stream_id),
                error_code: low32(error_code),
            },
        ),
        _ => None,
    }
}

/// The fields of a [`StreamClose`].
pub open spec fn stream_close_fields(m: StreamClose) -> Seq<(u32, Val)> {
    number_field(1, m.stream_id as u64) + number_field(2, m.error_code as u64)
}

impl StreamClose {
    /// Reads the message from its fields.
    fn from_fields(fs: &Vec<Field>) -> (r: Option<Self>)
        ensures
            match r {
                Some(m) => stream_close_of(field_values(fs@)) == Some(m),
                None => stream_close_of(field_values(fs@)) is None,
            },
    {
        match (get_number(fs, 1), get_number(fs, 2)) {
            (Some(stream_id), Some(error_code)) => Some(
                StreamClose {
                    stream_id: (stream_id % 0x1_0000_0000) as u32,
                    error_code: (error_code % 0x1_0000_0000) as u32,
                },
            ),
            _ => None,
        }
    }

    /// Appends the message's fields.
    pub(crate) fn put(&self, out: &mut Vec<u8>)
        ensures
            final(out)@ == old(out)@ + fields_bytes(stream_close_fields(*self)),
    {
        let ghost start = out@;
        put_number(out, 1, self.stream_id as u64);
        let ghost mut acc = number_field(1, self.stream_id as u64);
        put_number(out, 2, self.error_code as u64);
        proof {
            let next = number_field(2, self.error_code as u64);
            lemma_append_fields(start, acc, next);
            acc = acc + next;
        }
        assert(acc == stream_close_fields(*self));
    }
}

proof fn lemma_stream_close_back(m: StreamClose)
    ensures
        stream_close_of(stream_close_fields(m)) == Some(m),
        sendable(stream_close_fields(m)),
{
    broadcast use {group_with_tag, group_sendable};

    let fs = stream_close_fields(m);
    assert(with_tag(fs, 1) =~= number_field(1, m.stream_id as u64));
    lemma_number_back(fs, 1, m.stream_id as u64);
    assert(with_tag(fs, 2) =~= number_field(2, m.error_code as u64));
    lemma_number_back(fs, 2, m.error_code as u64);
}

/// A new size of the client's terminal.
#[derive(Debug, Clone, Copy, PartialEq, Eq)]
pub struct TerminalResize {
    /// The number of rows.
    pub rows: u32,
    /// The number of columns.
    pub cols: u32,
}

/// The [`TerminalResize`] that fields make.
pub open spec fn terminal_resize_of(fs: Seq<(u32, Val)>) -> Option<TerminalResize> {
    match (number(fs, 1), number(fs, 2)) {
        (Some(rows), Some(cols)) => Some(
            TerminalResize {
                rows: low32(rows),
                cols: low32(cols),
            },
        ),
        _ => None,
    }
}

/// The fields of a [`TerminalResize`].
pub open spec fn terminal_resize_fields(m: TerminalResize) -> Seq<(u32, Val)> {
    number_field(1, m.rows as u64) + number_field(2, m.cols as u64)
}

impl TerminalResize {
    /// Reads the message from its fields.
    fn from_fields(fs: &Vec<Field>) -> (r: Option<Self>)
        ensures
            match r {
                Some(m) => terminal_resize_of(field_values(fs@)) == Some(m),
                None => terminal_resize_of(field_values(fs@)) is None,
            },
    {
        match (get_number(fs, 1), get_number(fs, 2)) {
            (Some(rows), Some(cols)) => Some(
                TerminalResize {
                    rows: (rows % 0x1_0000_0000) as u32,
                    cols: (cols % 0x1_0000_0000) as u32,
                },
            ),
            _ => None,
        }
    }

    /// Appends the message's fields.
    pub(crate) fn put(&self, out: &mut Vec<u8>)
        ensures
            final(out)@ == old(out)@ + fields_bytes(terminal_resize_fields(*self)),
    {
        let ghost start = out@;
        put_number(out, 1, self.rows as u64);
        let ghost mut acc = number_field(1, self.rows as u64);
        put_number(out, 2, self.cols as u64);
        proof {
            let next = number_field(2, self.cols as u64);
            lemma_append_fields(start, acc, next);
            acc = acc + next;
        }
        assert(acc == terminal_resize_fields(*self));
    }
}

proof fn lemma_terminal_resize_back(m: TerminalResize)
    ensures
        terminal_resize_of(terminal_resize_fields(m)) == Some(m),
        sendable(terminal_resize_fields(m)),
{
    broadcast use {group_with_tag, group_sendable};

    let fs = terminal_resize_fields(m);
    assert(with_tag(fs, 1) =~= number_field(1, m.rows as u64));
    lemma_number_back(fs, 1, m.rows as u64);
    assert(with_tag(fs, 2) =~= number_field(2, m.cols as u64));
    lemma_number_back(fs, 2, m.cols as u64);
}

/// A sign of life.
#[derive(Debug, PartialEq, Eq)]
pub struct Heartbeat {
    /// What the sender has received, per stream.
    pub last_received_seq: HashMap<u32, u64>,
}

/// The value of a [`Heartbeat`].
pub struct HeartbeatValue {
    /// What the sender has received, per stream.
    pub last_received_seq: Map<u32, u64>,
}

/// The [`Heartbeat`] that fields make.
pub open spec fn heartbeat_of(fs: Seq<(u32, Val)>) -> Option<HeartbeatValue> {
    match (ack_map(fs, 1),) {
        (Some(last_received_seq),) => Some(
            HeartbeatValue {
                last_received_seq,
            },
        ),
        _ => None,
    }
}

/// The fields of a [`Heartbeat`], its acknowledgements in the order of `entries`.
pub open spec fn heartbeat_fields(m: HeartbeatValue, entries: Seq<(u32, u64)>) -> Seq<(u32, Val)> {
    ack_fields(1, entries)
}

impl Heartbeat {
    /// The value of the message.
    pub open spec fn view(self) -> HeartbeatValue {
        HeartbeatValue {
            last_received_seq: self.last_received_seq@,
        }
    }

    /// Reads the message from its fields.
    fn from_fields(fs: &Vec<Field>) -> (r: Option<Self>)
        ensures
            match r {
                Some(m) => heartbeat_of(field_values(fs@)) == Some(m@),
                None => heartbeat_of(field_values(fs@)) is None,
            },
    {
        match (get_ack_map(fs, 1),) {
            (Some(last_received_seq),) => Some(
                Heartbeat {
                    last_received_seq,
                },
            ),
            _ => None,
        }
    }

    /// Appends the message's fields.
    pub(crate) fn put(&self, out: &mut Vec<u8>)
        ensures
            exists|entries: Seq<(u32, u64)>| #[trigger]
                lists(entries, self.last_received_seq@) && final(out)@ == old(out)@ + fields_bytes(
                    heartbeat_fields(self@, entries),
                ),
    {
        let ghost start = out@;
        let ghost before = out@;
        put_ack_map(out, 1, &self.last_received_seq);
        let ghost entries = choose|entries: Seq<(u32, u64)>| #[trigger]
            lists(entries, self.last_received_seq@) && out@ == before + fields_bytes(
                ack_fields(1, entries),
            );
        let ghost acc = ack_fields(1, entries);
        assert(acc == heartbeat_fields(self@, entries));
    }
}

proof fn lemma_heartbeat_back(m: HeartbeatValue, entries: Seq<(u32, u64)>)
    requires
        map_of(entries) == m.last_received_seq,
    ensures
        heartbeat_of(heartbeat_fields(m, entries)) == Some(m),
        sendable(heartbeat_fields(m, entries)),
{
    broadcast use {group_with_tag, group_sendable};

    let fs = heartbeat_fields(m, entries);
    assert(with_tag(fs, 1) =~= ack_fields(1, entries));
    lemma_acks_back(fs, 1, entries);
}

/// The end of the session.
#[derive(Debug, Clone, Copy, PartialEq, Eq)]
pub struct Disconnect {}

/// The [`Disconnect`] that fields make.
pub open spec fn disconnect_of(fs: Seq<(u32, Val)>) -> Option<Disconnect> {
    Some(Disconnect {  })
}

/// The fields of a [`Disconnect`].
pub open spec fn disconnect_fields(m: Disconnect) -> Seq<(u32, Val)> {
    Seq::empty()
}

impl Disconnect {
    /// Reads the message from its fields.
    fn from_fields(fs: &Vec<Field>) -> (r: Option<Self>)
        ensures
            match r {
                Some(m) => disconnect_of(field_values(fs@)) == Some(m),
                None => disconnect_of(field_values(fs@)) is None,
            },
    {
        Some(Disconnect {  })
    }

    /// Appends the message's fields.
    pub(crate) fn put(&self, out: &mut Vec<u8>)
        ensures
            final(out)@ == old(out)@ + fields_bytes(disconnect_fields(*self)),
    {
        assert(out@ + fields_bytes(Seq::empty()) =~= out@);
    }
}

proof fn lemma_disconnect_back(m: Disconnect)
    ensures
        disconnect_of(disconnect_fields(m)) == Some(m),
        sendable(disconnect_fields(m)),
{
}

/// The client's request for its session, on a new connection.
#[derive(Debug, PartialEq, Eq)]
pub struct SessionOpen {
    /// The session, sixteen bytes.
    pub session_id: Vec<u8>,
    /// The secret that both sides know.
    pub passkey: String,
    /// What the client has received, per stream.
    pub last_received_seq: HashMap<u32, u64>,
    /// The `-R` specifications of the client.
    pub reverse_forwards: Vec<String>,
    /// Whether reverse forwards listen on all interfaces.
    pub gateway_ports: bool,
    /// Whether X11 is forwarded.
    pub x11_enabled: bool,
    /// The X11 authentication protocol.
    pub x11_auth_proto: String,
    /// The X11 authentication cookie.
    pub x11_auth_cookie: Vec<u8>,
}

/// The value of a [`SessionOpen`].
pub struct SessionOpenValue {
    /// The session, sixteen bytes.
    pub session_id: Seq<u8>,
    /// The secret that both sides know.
    pub passkey: Seq<char>,
    /// What the client has received, per stream.
    pub last_received_seq: Map<u32, u64>,
    /// The `-R` specifications of the client.
    pub reverse_forwards: Seq<Seq<char>>,
    /// Whether reverse forwards listen on all interfaces.
    pub gateway_ports: bool,
    /// Whether X11 is forwarded.
    pub x11_enabled: bool,
    /// The X11 authentication protocol.
    pub x11_auth_proto: Seq<char>,
    /// The X11 authentication cookie.
    pub x11_auth_cookie: Seq<u8>,
}

/// The [`SessionOpen`] that fields make.
pub open spec fn session_open_of(fs: Seq<(u32, Val)>) -> Option<SessionOpenValue> {
    match (
        byte_string(fs, 1),
        text_field(fs, 2),
        ack_map(fs, 3),
        text_list(fs, 4),
        number(fs, 5),
        number(fs, 6),
        text_field(fs, 7),
        byte_string(fs, 8),
    ) {
        (
            Some(session_id),
            Some(passkey),
            Some(last_received_seq),
            Some(reverse_forwards),
            Some(gateway_ports),
            Some(x11_enabled),
            Some(x11_auth_proto),
            Some(x11_auth_cookie),
        ) => Some(
            SessionOpenValue {
                session_id,
                passkey,
                last_received_seq,
                reverse_forwards,
                gateway_ports: gateway_ports != 0,
                x11_enabled: x11_enabled != 0,
                x11_auth_proto,
                x11_auth_cookie,
            },
        ),
        _ => None,
    }
}

/// The fields of a [`SessionOpen`], its acknowledgements in the order of `entries`.
pub open spec fn session_open_fields(
    m: SessionOpenValue,
    entries: Seq<(u32, u64)>,
) -> Seq<(u32, Val)> {
    bytes_field(1, m.session_id) + bytes_field(2, encode_utf8(m.passkey)) + ack_fields(3, entries)
        + text_fields(4, m.reverse_forwards) + number_field(5, bool_bits(m.gateway_ports))
        + number_field(6, bool_bits(m.x11_enabled)) + bytes_field(7, encode_utf8(m.x11_auth_proto))
        + bytes_field(8, m.x11_auth_cookie)
}

impl SessionOpen {
    /// The value of the message.
    pub open spec fn view(self) -> SessionOpenValue {
        SessionOpenValue {
            session_id: self.session_id@,
            passkey: self.passkey@,
            last_received_seq: self.last_received_seq@,
            reverse_forwards: texts(self.reverse_forwards@),
            gateway_ports: self.gateway_ports,
            x11_enabled: self.x11_enabled,
            x11_auth_proto: self.x11_auth_proto@,
            x11_auth_cookie: self.x11_auth_cookie@,
        }
    }

    /// Reads the message from its fields.
    fn from_fields(fs: &Vec<Field>) -> (r: Option<Self>)
        ensures
            match r {
                Some(m) => session_open_of(field_values(fs@)) == Some(m@),
                None => session_open_of(field_values(fs@)) is None,
            },
    {
        match (
            get_bytes(fs, 1),
            get_text(fs, 2),
            get_ack_map(fs, 3),
            get_text_list(fs, 4),
            get_number(fs, 5),
            get_number(fs, 6),
            get_text(fs, 7),
            get_bytes(fs, 8),
        ) {
            (
                Some(session_id),
                Some(passkey),
                Some(last_received_seq),
                Some(reverse_forwards),
                Some(gateway_ports),
                Some(x11_enabled),
                Some(x11_auth_proto),
                Some(x11_auth_cookie),
            ) => Some(
                SessionOpen {
                    session_id,
                    passkey,
                    last_received_seq,
                    reverse_forwards,
                    gateway_ports: gateway_ports != 0,
                    x11_enabled: x11_enabled != 0,
                    x11_auth_proto,
                    x11_auth_cookie,
                },
            ),
            _ => None,
        }
    }

    /// Appends the message's fields.
    pub(crate) fn put(&self, out: &mut Vec<u8>)
        ensures
            exists|entries: Seq<(u32, u64)>| #[trigger]
                lists(entries, self.last_received_seq@) && final(out)@ == old(out)@ + fields_bytes(
                    session_open_fields(self@, entries),
                ),
    {
        let ghost start = out@;
        put_bytes(out, 1, self.session_id.as_slice());
        let ghost mut acc = bytes_field(1, self.session_id@);
        put_bytes(out, 2, self.passkey.as_str().as_bytes());
        proof {
            let next = bytes_field(2, encode_utf8(self.passkey@));
            lemma_append_fields(start, acc, next);
            acc = acc + next;
        }
        let ghost before = out@;
        put_ack_map(out, 3, &self.last_received_seq);
        let ghost entries = choose|entries: Seq<(u32, u64)>| #[trigger]
            lists(entries, self.last_received_seq@) && out@ == before + fields_bytes(
                ack_fields(3, entries),
            );
        proof {
            let next = ack_fields(3, entries);
            lemma_append_fields(start, acc, next);
            acc = acc + next;
        }
        put_text_list(out, 4, &self.reverse_forwards);
        proof {
            let next = text_fields(4, texts(self.reverse_forwards@));
            lemma_append_fields(start, acc, next);
            acc = acc + next;
        }
        put_number(out, 5, if self.gateway_ports { 1 } else { 0 });
        proof {
            let next = number_field(5, bool_bits(self.gateway_ports));
            lemma_append_fields(start, acc, next);
            acc = acc + next;
        }
        put_number(out, 6, if self.x11_enabled { 1 } else { 0 });
        proof {
            let next = number_field(6, bool_bits(self.x11_enabled));
            lemma_append_fields(start, acc, next);
            acc = acc + next;
        }
        put_bytes(out, 7, self.x11_auth_proto.as_str().as_bytes());
        proof {
            let next = bytes_field(7, encode_utf8(self.x11_auth_proto@));
            lemma_append_fields(start, acc, next);
            acc = acc + next;
        }
        put_bytes(out, 8, self.x11_auth_cookie.as_slice());
        proof {
            let next = bytes_field(8, self.x11_auth_cookie@);
            lemma_append_fields(start, acc, next);
            acc = acc + next;
        }
        assert(acc == session_open_fields(self@, entries));
    }
}

#[verifier::rlimit(60)]
proof fn lemma_session_open_back(m: SessionOpenValue, entries: Seq<(u32, u64)>)
    requires
        map_of(entries) == m.last_received_seq,
    ensures
        session_open_of(session_open_fields(m, entries)) == Some(m),
        sendable(session_open_fields(m, entries)),
{
    broadcast use {group_with_tag, group_sendable};

    let fs = session_open_fields(m, entries);
    assert(with_tag(fs, 1) =~= bytes_field(1, m.session_id));
    lemma_bytes_back(fs, 1, m.session_id);
    assert(with_tag(fs, 2) =~= bytes_field(2, encode_utf8(m.passkey)));
    lemma_text_back(fs, 2, m.passkey);
    assert(with_tag(fs, 3) =~= ack_fields(3, entries));
    lemma_acks_back(fs, 3, entries);
    assert(with_tag(fs, 4) =~= text_fields(4, m.reverse_forwards));
    lemma_texts_back(fs, 4, m.reverse_forwards);
    assert(with_tag(fs, 5) =~= number_field(5, bool_bits(m.gateway_ports)));
    lemma_number_back(fs, 5, bool_bits(m.gateway_ports));
    assert(with_tag(fs, 6) =~= number_field(6, bool_bits(m.x11_enabled)));
    lemma_number_back(fs, 6, bool_bits(m.x11_enabled));
    assert(with_tag(fs, 7) =~= bytes_field(7, encode_utf8(m.x11_auth_proto)));
    lemma_text_back(fs, 7, m.x11_auth_proto);
    assert(with_tag(fs, 8) =~= bytes_field(8, m.x11_auth_cookie));
    lemma_bytes_back(fs, 8, m.x11_auth_cookie);
}

/// The server's answer to a `SessionOpen`.
#[derive(Debug, PartialEq, Eq)]
pub struct SessionAccept {
    /// What the server has received, per stream.
    pub last_received_seq: HashMap<u32, u64>,
}

/// The value of a [`SessionAccept`].
pub struct SessionAcceptValue {
    /// What the server has received, per stream.
    pub last_received_seq: Map<u32, u64>,
}

/// The [`SessionAccept`] that fields make.
pub open spec fn session_accept_of(fs: Seq<(u32, Val)>) -> Option<SessionAcceptValue> {
    match (ack_map(fs, 1),) {
        (Some(last_received_seq),) => Some(
            SessionAcceptValue {
                last_received_seq,
            },
        ),
        _ => None,
    }
}

/// The fields of a [`SessionAccept`], its acknowledgements in the order of `entries`.
pub open spec fn session_accept_fields(
    m: SessionAcceptValue,
    entries: Seq<(u32, u64)>,
) -> Seq<(u32, Val)> {
    ack_fields(1, entries)
}

impl SessionAccept {
    /// The value of the message.
    pub open spec fn view(self) -> SessionAcceptValue {
        SessionAcceptValue {
            last_received_seq: self.last_received_seq@,
        }
    }

    /// Reads the message from its fields.
    fn from_fields(fs: &Vec<Field>) -> (r: Option<Self>)
        ensures
            match r {
                Some(m) => session_accept_of(field_values(fs@)) == Some(m@),
                None => session_accept_of(field_values(fs@)) is None,
            },
    {
        match (get_ack_map(fs, 1),) {
            (Some(last_received_seq),) => Some(
                SessionAccept {
                    last_received_seq,
                },
            ),
            _ => None,
        }
    }

    /// Appends the message's fields.
    pub(crate) fn put(&self, out: &mut Vec<u8>)
        ensures
            exists|entries: Seq<(u32, u64)>| #[trigger]
                lists(entries, self.last_received_seq@) && final(out)@ == old(out)@ + fields_bytes(
                    session_accept_fields(self@, entries),
                ),
    {
        let ghost start = out@;
        let ghost before = out@;
        put_ack_map(out, 1, &self.last_received_seq);
        let ghost entries = choose|entries: Seq<(u32, u64)>| #[trigger]
            lists(entries, self.last_received_seq@) && out@ == before + fields_bytes(
                ack_fields(1, entries),
            );
        let ghost acc = ack_fields(1, entries);
        assert(acc == session_accept_fields(self@, entries));
    }
}

proof fn lemma_session_accept_back(m: SessionAcceptValue, entries: Seq<(u32, u64)>)
    requires
        map_of(entries) == m.last_received_seq,
    ensures
        session_accept_of(session_accept_fields(m, entries)) == Some(m),
        sendable(session_accept_fields(m, entries)),
{
    broadcast use {group_with_tag, group_sendable};

    let fs = session_accept_fields(m, entries);
    assert(with_tag(fs, 1) =~= ack_fields(1, entries));
    lemma_acks_back(fs, 1, entries);
}

/// A forwarded datagram.
#[derive(Debug, PartialEq, Eq)]
pub struct UdpDatagram {
    /// The payload.
    pub data: Vec<u8>,
    /// The address of the peer on the far side.
    pub peer_addr: String,
    /// The port of the peer on the far side.
    pub peer_port: u32,
}

/// The value of a [`UdpDatagram`].
pub struct UdpDatagramValue {
    /// The payload.
    pub data: Seq<u8>,
    /// The address of the peer on the far side.
    pub peer_addr: Seq<char>,
    /// The port of the peer on the far side.
    pub peer_port: u32,
}

/// The [`UdpDatagram`] that fields make.
pub open spec fn udp_datagram_of(fs: Seq<(u32, Val)>) -> Option<UdpDatagramValue> {
    match (byte_string(fs, 1), text_field(fs, 2), number(fs, 3)) {
        (Some(data), Some(peer_addr), Some(peer_port)) => Some(
            UdpDatagramValue {
                data,
                peer_addr,
                peer_port: low32(peer_port),
            },
        ),
        _ => None,
    }
}

/// The fields of a [`UdpDatagram`].
pub open spec fn udp_datagram_fields(m: UdpDatagramValue) -> Seq<(u32, Val)> {
    bytes_field(1, m.data) + bytes_field(2, encode_utf8(m.peer_addr))
        + number_field(3, m.peer_port as u64)
}

impl UdpDatagram {
    /// The value of the message.
    pub open spec fn view(self) -> UdpDatagramValue {
        UdpDatagramValue {
            data: self.data@,
            peer_addr: self.peer_addr@,
            peer_port: self.peer_port,
        }
    }

    /// Reads the message from its fields.
    fn from_fields(fs: &Vec<Field>) -> (r: Option<Self>)
        ensures
            match r {
                Some(m) => udp_datagram_of(field_values(fs@)) == Some(m@),
                None => udp_datagram_of(field_values(fs@)) is None,
            },
    {
        match (get_bytes(fs, 1), get_text(fs, 2), get_number(fs, 3)) {
            (Some(data), Some(peer_addr), Some(peer_port)) => Some(
                UdpDatagram {
                    data,
                    peer_addr,
                    peer_port: (peer_port % 0x1_0000_0000) as u32,
                },
            ),
            _ => None,
        }
    }

    /// Appends the message's fields.
    pub(crate) fn put(&self, out: &mut Vec<u8>)
        ensures
            final(out)@ == old(out)@ + fields_bytes(udp_datagram_fields(self@)),
    {
        let ghost start = out@;
        put_bytes(out, 1, self.data.as_slice());
        let ghost mut acc = bytes_field(1, self.data@);
        put_bytes(out, 2, self.peer_addr.as_str().as_bytes());
        proof {
            let next = bytes_field(2, encode_utf8(self.peer_addr@));
            lemma_append_fields(start, acc, next);
            acc = acc + next;
        }
        put_number(out, 3, self.peer_port as u64);
        proof {
            let next = number_field(3, self.peer_port as u64);
            lemma_append_fields(start, acc, next);
            acc = acc + next;
        }
        assert(acc == udp_datagram_fields(self@));
    }
}

proof fn lemma_udp_datagram_back(m: UdpDatagramValue)
    ensures
        udp_datagram_of(udp_datagram_fields(m)) == Some(m),
        sendable(udp_datagram_fields(m)),
{
    broadcast use {group_with_tag, group_sendable};

    let fs = udp_datagram_fields(m);
    assert(with_tag(fs, 1) =~= bytes_field(1, m.data));
    lemma_bytes_back(fs, 1, m.data);
    assert(with_tag(fs, 2) =~= bytes_field(2, encode_utf8(m.peer_addr)));
    lemma_text_back(fs, 2, m.peer_addr);
    assert(with_tag(fs, 3) =~= number_field(3, m.peer_port as u64));
    lemma_number_back(fs, 3, m.peer_port as u64);
}

/// What an [`Envelope`] carries.
#[derive(Debug, PartialEq, Eq)]
pub enum Payload {
    /// The client's opening message.
    ClientHello(ClientHello),
    /// The server's answer to a `ClientHello`.
    ServerHello(ServerHello),
    /// Opens a forwarded stream.
    StreamOpen(StreamOpen),
    /// Closes a stream.
    StreamClose(StreamClose),
    /// A new size of the client's terminal.
    TerminalResize(TerminalResize),
    /// A sign of life.
    Heartbeat(Heartbeat),
    /// The end of the session.
    Disconnect(Disconnect),
    /// The client's request for its session, on a new connection.
    SessionOpen(SessionOpen),
    /// The server's answer to a `SessionOpen`.
    SessionAccept(SessionAccept),
    /// A forwarded datagram.
    UdpDatagram(UdpDatagram),
}

/// The value of a [`Payload`].
pub enum PayloadValue {
    /// The client's opening message.
    ClientHello(ClientHelloValue),
    /// The server's answer to a `ClientHello`.
    ServerHello(ServerHelloValue),
    /// Opens a forwarded stream.
    StreamOpen(StreamOpenValue),
    /// Closes a stream.
    StreamClose(StreamClose),
    /// A new size of the client's terminal.
    TerminalResize(TerminalResize),
    /// A sign of life.
    Heartbeat(HeartbeatValue),
    /// The end of the session.
    Disconnect(Disconnect),
    /// The client's request for its session, on a new connection.
    SessionOpen(SessionOpenValue),
    /// The server's answer to a `SessionOpen`.
    SessionAccept(SessionAcceptValue),
    /// A forwarded datagram.
    UdpDatagram(UdpDatagramValue),
}

impl Payload {
    /// The value of the payload.
    pub open spec fn view(self) -> PayloadValue {
        match self {
            Payload::ClientHello(m) => PayloadValue::ClientHello(m@),
            Payload::ServerHello(m) => PayloadValue::ServerHello(m@),
            Payload::StreamOpen(m) => PayloadValue::StreamOpen(m@),
            Payload::StreamClose(m) => PayloadValue::StreamClose(m),
            Payload::TerminalResize(m) => PayloadValue::TerminalResize(m),
            Payload::Heartbeat(m) => PayloadValue::Heartbeat(m@),
            Payload::Disconnect(m) => PayloadValue::Disconnect(m),
            Payload::SessionOpen(m) => PayloadValue::SessionOpen(m@),
            Payload::SessionAccept(m) => PayloadValue::SessionAccept(m@),
            Payload::UdpDatagram(m) => PayloadValue::UdpDatagram(m@),
        }
    }
}

/// The number of the field that a payload stands in.
pub open spec fn payload_tag(p: PayloadValue) -> u32 {
    match p {
        PayloadValue::ClientHello(_) => 1,
        PayloadValue::ServerHello(_) => 2,
        PayloadValue::StreamOpen(_) => 4,
        PayloadValue::StreamClose(_) => 5,
        PayloadValue::TerminalResize(_) => 7,
        PayloadValue::Heartbeat(_) => 8,
        PayloadValue::Disconnect(_) => 9,
        PayloadValue::SessionOpen(_) => 10,
        PayloadValue::SessionAccept(_) => 11,
        PayloadValue::UdpDatagram(_) => 12,
    }
}

/// Whether `tag` is the number of a payload's field.
pub open spec fn is_payload_tag(tag: u32) -> bool {
    tag == 1 || tag == 2 || tag == 4 || tag == 5 || tag == 7 || tag == 8 || tag == 9 || tag == 10
        || tag == 11 || tag == 12
}

/// The payload that the fields of a message in field `tag` make.
pub open spec fn payload_of(tag: u32, fs: Seq<(u32, Val)>) -> Option<PayloadValue> {
    if tag == 1 {
        match client_hello_of(fs) {
            Some(m) => Some(PayloadValue::ClientHello(m)),
            None => None,
        }
    } else if tag == 2 {
        match server_hello_of(fs) {
            Some(m) => Some(PayloadValue::ServerHello(m)),
            None => None,
        }
    } else if tag == 4 {
        match stream_open_of(fs) {
            Some(m) => Some(PayloadValue::StreamOpen(m)),
            None => None,
        }
    } else if tag == 5 {
        match stream_close_of(fs) {
            Some(m) => Some(PayloadValue::StreamClose(m)),
            None => None,
        }
    } else if tag == 7 {
        match terminal_resize_of(fs) {
            Some(m) => Some(PayloadValue::TerminalResize(m)),
            None => None,
        }
    } else if tag == 8 {
        match heartbeat_of(fs) {
            Some(m) => Some(PayloadValue::Heartbeat(m)),
            None => None,
        }
    } else if tag == 9 {
        match disconnect_of(fs) {
            Some(m) => Some(PayloadValue::Disconnect(m)),
            None => None,
        }
    } else if tag == 10 {
        match session_open_of(fs) {
            Some(m) => Some(PayloadValue::SessionOpen(m)),
            None => None,
        }
    } else if tag == 11 {
        match session_accept_of(fs) {
            Some(m) => Some(PayloadValue::SessionAccept(m)),
            None => None,
        }
    } else if tag == 12 {
        match udp_datagram_of(fs) {
            Some(m) => Some(PayloadValue::UdpDatagram(m)),
            None => None,
        }
    } else {
        None
    }
}

/// The acknowledgements that a payload carries.
pub open spec fn payload_acks(p: PayloadValue) -> Map<u32, u64> {
    match p {
        PayloadValue::ClientHello(m) => m.last_received_seq,
        PayloadValue::ServerHello(m) => m.last_received_seq,
        PayloadValue::Heartbeat(m) => m.last_received_seq,
        PayloadValue::SessionOpen(m) => m.last_received_seq,
        PayloadValue::SessionAccept(m) => m.last_received_seq,
        _ => Map::empty(),
    }
}

/// The fields of a payload's message, its acknowledgements in the order of `entries`.
pub open spec fn payload_fields(p: PayloadValue, entries: Seq<(u32, u64)>) -> Seq<(u32, Val)> {
    match p {
        PayloadValue::ClientHello(m) => client_hello_fields(m, entries),
        PayloadValue::ServerHello(m) => server_hello_fields(m, entries),
        PayloadValue::StreamOpen(m) => stream_open_fields(m),
        PayloadValue::StreamClose(m) => stream_close_fields(m),
        PayloadValue::TerminalResize(m) => terminal_resize_fields(m),
        PayloadValue::Heartbeat(m) => heartbeat_fields(m, entries),
        PayloadValue::Disconnect(m) => disconnect_fields(m),
        PayloadValue::SessionOpen(m) => session_open_fields(m, entries),
        PayloadValue::SessionAccept(m) => session_accept_fields(m, entries),
        PayloadValue::UdpDatagram(m) => udp_datagram_fields(m),
    }
}

/// Reads a payload from the fields of its message.
fn payload_from_fields(tag: u32, fs: &Vec<Field>) -> (r: Option<Payload>)
    ensures
        match r {
            Some(p) => payload_of(tag, field_values(fs@)) == Some(p@),
            None => payload_of(tag, field_values(fs@)) is None,
        },
{
    if tag == 1 {
        match ClientHello::from_fields(fs) {
            Some(m) => Some(Payload::ClientHello(m)),
            None => None,
        }
    } else if tag == 2 {
        match ServerHello::from_fields(fs) {
            Some(m) => Some(Payload::ServerHello(m)),
            None => None,
        }
    } else if tag == 4 {
        match StreamOpen::from_fields(fs) {
            Some(m) => Some(Payload::StreamOpen(m)),
            None => None,
        }
    } else if tag == 5 {
        match StreamClose::from_fields(fs) {
            Some(m) => Some(Payload::StreamClose(m)),
            None => None,
        }
    } else if tag == 7 {
        match TerminalResize::from_fields(fs) {
            Some(m) => Some(Payload::TerminalResize(m)),
            None => None,
        }
    } else if tag == 8 {
        match Heartbeat::from_fields(fs) {
            Some(m) => Some(Payload::Heartbeat(m)),
            None => None,
        }
    } else if tag == 9 {
        match Disconnect::from_fields(fs) {
            Some(m) => Some(Payload::Disconnect(m)),
            None => None,
        }
    } else if tag == 10 {
        match SessionOpen::from_fields(fs) {
            Some(m) => Some(Payload::SessionOpen(m)),
            None => None,
        }
    } else if tag == 11 {
        match SessionAccept::from_fields(fs) {
            Some(m) => Some(Payload::SessionAccept(m)),
            None => None,
        }
    } else if tag == 12 {
        match UdpDatagram::from_fields(fs) {
            Some(m) => Some(Payload::UdpDatagram(m)),
            None => None,
        }
    } else {
        None
    }
}

impl Payload {
    /// The number of the field that the payload stands in.
    fn tag(&self) -> (r: u32)
        ensures
            r == payload_tag(self@),
    {
        match self {
            Payload::ClientHello(_) => 1,
            Payload::ServerHello(_) => 2,
            Payload::StreamOpen(_) => 4,
            Payload::StreamClose(_) => 5,
            Payload::TerminalResize(_) => 7,
            Payload::Heartbeat(_) => 8,
            Payload::Disconnect(_) => 9,
            Payload::SessionOpen(_) => 10,
            Payload::SessionAccept(_) => 11,
            Payload::UdpDatagram(_) => 12,
        }
    }

    /// The bytes of the payload's message.
    fn body(&self) -> (r: Vec<u8>)
        ensures
            exists|entries: Seq<(u32, u64)>| #[trigger]
                lists(entries, payload_acks(self@)) && r@ == fields_bytes(
                    payload_fields(self@, entries),
                ),
    {
        let mut out: Vec<u8> = Vec::new();
        let ghost none = Seq::<(u32, u64)>::empty();
        assert(lists(none, Map::empty()));
        let ghost mut order = none;
        match self {
            Payload::ClientHello(m) => {
                m.put(&mut out);
                let ghost entries = choose|entries: Seq<(u32, u64)>| #[trigger]
                    lists(entries, m.last_received_seq@) && out@ == Seq::<u8>::empty() + fields_bytes(
                        client_hello_fields(m@, entries),
                    );
                proof {
                    order = entries;
                }
            },
            Payload::ServerHello(m) => {
                m.put(&mut out);
                let ghost entries = choose|entries: Seq<(u32, u64)>| #[trigger]
                    lists(entries, m.last_received_seq@) && out@ == Seq::<u8>::empty() + fields_bytes(
                        server_hello_fields(m@, entries),
                    );
                proof {
                    order = entries;
                }
            },
            Payload::StreamOpen(m) => {
                m.put(&mut out);
            },
            Payload::StreamClose(m) => {
                m.put(&mut out);
            },
            Payload::TerminalResize(m) => {
                m.put(&mut out);
            },
            Payload::Heartbeat(m) => {
                m.put(&mut out);
                let ghost entries = choose|entries: Seq<(u32, u64)>| #[trigger]
                    lists(entries, m.last_received_seq@) && out@ == Seq::<u8>::empty() + fields_bytes(
                        heartbeat_fields(m@, entries),
                    );
                proof {
                    order = entries;
                }
            },
            Payload::Disconnect(m) => {
                m.put(&mut out);
            },
            Payload::SessionOpen(m) => {
                m.put(&mut out);
                let ghost entries = choose|entries: Seq<(u32, u64)>| #[trigger]
                    lists(entries, m.last_received_seq@) && out@ == Seq::<u8>::empty() + fields_bytes(
                        session_open_fields(m@, entries),
                    );
                proof {
                    order = entries;
                }
            },
            Payload::SessionAccept(m) => {
                m.put(&mut out);
                let ghost entries = choose|entries: Seq<(u32, u64)>| #[trigger]
                    lists(entries, m.last_received_seq@) && out@ == Seq::<u8>::empty() + fields_bytes(
                        session_accept_fields(m@, entries),
                    );
                proof {
                    order = entries;
                }
            },
            Payload::UdpDatagram(m) => {
                m.put(&mut out);
            },
        }
        assert(lists(order, payload_acks(self@)));
        assert(out@ =~= fields_bytes(payload_fields(self@, order)));
        out
    }
}

proof fn lemma_payload_back(p: PayloadValue, entries: Seq<(u32, u64)>)
    requires
        map_of(entries) == payload_acks(p),
    ensures
        payload_of(payload_tag(p), payload_fields(p, entries)) == Some(p),
        sendable(payload_fields(p, entries)),
{
    match p {
        PayloadValue::ClientHello(m) => {
            lemma_client_hello_back(m, entries);
        },
        PayloadValue::ServerHello(m) => {
            lemma_server_hello_back(m, entries);
        },
        PayloadValue::StreamOpen(m) => {
            lemma_stream_open_back(m);
        },
        PayloadValue::StreamClose(m) => {
            lemma_stream_close_back(m);
        },
        PayloadValue::TerminalResize(m) => {
            lemma_terminal_resize_back(m);
        },
        PayloadValue::Heartbeat(m) => {
            lemma_heartbeat_back(m, entries);
        },
        PayloadValue::Disconnect(m) => {
            lemma_disconnect_back(m);
        },
        PayloadValue::SessionOpen(m) => {
            lemma_session_open_back(m, entries);
        },
        PayloadValue::SessionAccept(m) => {
            lemma_session_accept_back(m, entries);
        },
        PayloadValue::UdpDatagram(m) => {
            lemma_udp_datagram_back(m);
        },
    }
}

impl Default for Heartbeat {
    /// A heartbeat without acknowledgements.
    fn default() -> (r: Self)
        ensures
            r@.last_received_seq == Map::<u32, u64>::empty(),
    {
        Heartbeat { last_received_seq: HashMap::new() }
    }
}

// ---------------------------------------------------------------------------
// Envelopes
// ---------------------------------------------------------------------------

/// The outermost message: one payload, or none.
#[derive(Debug, PartialEq, Eq)]
pub struct Envelope {
    /// The payload.
    pub payload: Option<Payload>,
}

/// A message that cannot be read.
#[derive(Debug, Clone, Copy, PartialEq, Eq, Structural)]
pub struct DecodeError {}

/// The nesting that is left for the fields of a payload's message.
pub const PAYLOAD_DEPTH: u32 = 99;

/// The payload of an envelope with the fields `fs`: the number of its field and the fields
/// of its message. Where several payloads stand in the envelope the last one counts; where
/// it repeats the one before, the two are taken together.
pub open spec fn last_payload(fs: Seq<(u32, Val)>) -> Option<Option<(u32, Seq<(u32, Val)>)>>
    decreases fs.len(),
{
    if fs.len() == 0 {
        Some(None)
    } else {
        let (tag, val) = fs.last();
        match last_payload(fs.drop_last()) {
            None => None,
            Some(previous) => if !is_payload_tag(tag) {
                Some(previous)
            } else {
                match val {
                    Val::Bytes(b) => match fields(b, PAYLOAD_DEPTH as nat) {
                        Some(gs) => if payload_of(tag, gs) is None {
                            None
                        } else {
                            match previous {
                                Some((t, old)) => if t == tag {
                                    Some(Some((tag, old + gs)))
                                } else {
                                    Some(Some((tag, gs)))
                                },
                                None => Some(Some((tag, gs))),
                            }
                        },
                        None => None,
                    },
                    _ => None,
                }
            },
        }
    }
}

/// The payload of the envelope `b`, where `b` is an envelope.
pub open spec fn decoded(b: Seq<u8>) -> Option<Option<PayloadValue>> {
    match fields(b, RECURSION_LIMIT as nat) {
        None => None,
        Some(fs) => match last_payload(fs) {
            None => None,
            Some(None) => Some(None),
            Some(Some((tag, gs))) => match payload_of(tag, gs) {
                Some(p) => Some(Some(p)),
                None => None,
            },
        },
    }
}

/// The acknowledgements in an envelope.
pub open spec fn envelope_acks(p: Option<PayloadValue>) -> Map<u32, u64> {
    match p {
        Some(v) => payload_acks(v),
        None => Map::empty(),
    }
}

/// How an envelope is written, its acknowledgements in the order of `entries`.
pub open spec fn envelope_bytes(p: Option<PayloadValue>, entries: Seq<(u32, u64)>) -> Seq<u8> {
    match p {
        Some(v) => field_bytes(
            (payload_tag(v), Val::Bytes(fields_bytes(payload_fields(v, entries)))),
        ),
        None => Seq::empty(),
    }
}

/// Whether `b` is an envelope with the payload `p`, as this library writes it: the order of
/// acknowledgements is open, nothing else.
pub open spec fn is_encoding(p: Option<PayloadValue>, b: Seq<u8>) -> bool {
    exists|entries: Seq<(u32, u64)>| #[trigger]
        lists(entries, envelope_acks(p)) && b == envelope_bytes(p, entries)
}

/// The value of an optional payload.
pub open spec fn opt_payload(p: Option<Payload>) -> Option<PayloadValue> {
    match p {
        Some(v) => Some(v@),
        None => None,
    }
}

impl Envelope {
    /// The value of the payload.
    pub open spec fn view(self) -> Option<PayloadValue> {
        opt_payload(self.payload)
    }

    /// The bytes of the envelope.
    pub fn encode_to_vec(&self) -> (r: Vec<u8>)
        ensures
            is_encoding(self@, r@),
    {
        let mut out: Vec<u8> = Vec::new();
        let ghost mut order = Seq::<(u32, u64)>::empty();
        assert(lists(order, Map::empty()));
        match &self.payload {
            None => {},
            Some(p) => {
                let body = p.body();
                let ghost entries = choose|entries: Seq<(u32, u64)>| #[trigger]
                    lists(entries, payload_acks(p@)) && body@ == fields_bytes(
                        payload_fields(p@, entries),
                    );
                write_bytes_field(&mut out, p.tag(), body.as_slice());
                proof {
                    order = entries;
                }
            },
        }
        assert(lists(order, envelope_acks(self@)));
        assert(out@ =~= envelope_bytes(self@, order));
        out
    }

    /// Reads an envelope.
    pub fn decode(data: &[u8]) -> (r: Result<Envelope, DecodeError>)
        ensures
            match r {
                Ok(e) => decoded(data@) == Some(e@),
                Err(_) => decoded(data@) is None,
            },
    {
        let fs = match read_fields(data, RECURSION_LIMIT) {
            Some(fs) => fs,
            None => {
                return Err(DecodeError {  });
            },
        };
        let ghost vs = field_values(fs@);
        let mut tag: u32 = 0;
        let mut current: Vec<Field> = Vec::new();
        assert(vs.take(0) =~= Seq::empty());
        for i in 0..fs.len()
            invariant
                vs == field_values(fs@),
                fields(data@, RECURSION_LIMIT as nat) == Some(vs),
                last_payload(vs.take(i as int)) == Some(
                    if tag == 0 {
                        None
                    } else {
                        Some((tag, field_values(current@)))
                    },
                ),
        {
            let f = &fs[i];
            assert(vs.take(i + 1).drop_last() =~= vs.take(i as int));
            assert(vs.take(i + 1).last() == f@);
            if known_payload(f.tag) {
                let more = match &f.value {
                    WireValue::Bytes(b) => read_fields(b.as_slice(), PAYLOAD_DEPTH),
                    _ => None,
                };
                let mut more = match more {
                    Some(m) => m,
                    None => {
                        proof {
                            lemma_last_payload_fails(vs, i + 1);
                        }
                        return Err(DecodeError {  });
                    },
                };
                if payload_from_fields(f.tag, &more).is_none() {
                    proof {
                        lemma_last_payload_fails(vs, i + 1);
                    }
                    return Err(DecodeError {  });
                }
                if tag == f.tag {
                    assert(field_values(current@ + more@) =~= field_values(current@) + field_values(
                        more@,
                    ));
                    current.append(&mut more);
                } else {
                    tag = f.tag;
                    current = more;
                }
            }
        }
        assert(vs.take(vs.len() as int) =~= vs);
        if tag == 0 {
            Ok(Envelope { payload: None })
        } else {
            match payload_from_fields(tag, &current) {
                Some(p) => Ok(Envelope { payload: Some(p) }),
                None => Err(DecodeError {  }),
            }
        }
    }
}

/// Whether `tag` is the number of a payload's field.
fn known_payload(tag: u32) -> (r: bool)
    ensures
        r == is_payload_tag(tag),
{
    tag == 1 || tag == 2 || tag == 4 || tag == 5 || (7 <= tag && tag <= 12)
}

/// A payload that cannot be read makes the envelope unreadable, whatever follows.
proof fn lemma_last_payload_fails(fs: Seq<(u32, Val)>, k: int)
    requires
        0 <= k <= fs.len(),
        last_payload(fs.take(k)) is None,
    ensures
        last_payload(fs) is None,
    decreases fs.len() - k,
{
    if k < fs.len() {
        assert(fs.take(k + 1).drop_last() =~= fs.take(k));
        lemma_last_payload_fails(fs, k + 1);
    } else {
        assert(fs.take(k) =~= fs);
    }
}

/// Reading what was written gives the payload back, in whatever order its acknowledgements
/// were written.
pub proof fn law_envelope_round_trip(p: Option<PayloadValue>, b: Seq<u8>)
    requires
        is_encoding(p, b),
        b.len() <= u64::MAX,
    ensures
        decoded(b) == Some(p),
{
    let entries = choose|entries: Seq<(u32, u64)>| #[trigger]
        lists(entries, envelope_acks(p)) && b == envelope_bytes(p, entries);
    match p {
        None => {
            assert(fields(b, RECURSION_LIMIT as nat) == Some(Seq::<(u32, Val)>::empty()));
        },
        Some(v) => {
            let gs = payload_fields(v, entries);
            let body = fields_bytes(gs);
            let f = (payload_tag(v), Val::Bytes(body));
            let fs = seq![f];
            lemma_one_field(f);
            assert(body.len() <= field_bytes(f).len());
            lemma_payload_back(v, entries);
            lemma_field_sizes(gs);
            assert forall|i: int| 0 <= i < gs.len() implies writable_field(#[trigger] gs[i]) by {}
            assert(writable_field(f));
            law_fields_round_trip(fs, RECURSION_LIMIT as nat);
            law_fields_round_trip(gs, PAYLOAD_DEPTH as nat);
            assert(fs.drop_last() =~= Seq::empty());
            assert(last_payload(fs.drop_last()) == Some(None::<(u32, Seq<(u32, Val)>)>));
            assert(last_payload(fs) == Some(Some((payload_tag(v), gs))));
        },
    }
}

// ---------------------------------------------------------------------------
// What stands where on the wire
// ---------------------------------------------------------------------------

/// A header is the version, the flags, the sixteen bytes of the session, and the number of the
/// packet, most significant byte first.
pub proof fn law_header_layout(h: PacketHeader)
    ensures
        ({
            let b = header_bytes(h);
            &&& b.len() == 26
            &&& b[0] == h.version
            &&& b[1] == h.flags
            &&& b.subrange(2, 18) == h.session_id@
            &&& crate::bytes::be_value(b.subrange(18, 26)) == h.packet_seq
            &&& b[25] == h.packet_seq % 256
        }),
{
    lemma_be_u64(h.packet_seq);
    crate::bytes::law_most_significant_first(h.packet_seq, 0);
    let b = header_bytes(h);
    assert(b.subrange(2, 18) =~= h.session_id@);
    assert(b.subrange(18, 26) =~= be_bytes(h.packet_seq as nat, 8));
}

/// A header is read if and only if it is complete and of version 1, and what was written is
/// read as it was.
pub proof fn law_header_read(data: &[u8], r: Option<PacketHeader>, h: PacketHeader)
    requires
        call_ensures(PacketHeader::decode, (data,), r),
    ensures
        r is Some <==> data@.len() >= 26 && data@[0] == 1,
        h.version == 1 && data@.len() >= 26 && data@.take(26) == header_bytes(h) ==> (
        r matches Some(x) && x.flags == h.flags && x.session_id@ == h.session_id@ && x.packet_seq
            == h.packet_seq),
{
    if h.version == 1 && data@.len() >= 26 && data@.take(26) == header_bytes(h) {
        assert(data@[0] == data@.take(26)[0]);
        law_header_injective(r.unwrap(), h);
    }
}

/// The numbers that stand for what a stream carries, and for the protocol of a forward.
pub proof fn law_stream_numbers(t: StreamType, p: ForwardProto)
    ensures
        t.number() == 0 <==> t == StreamType::Terminal,
        t.number() == 1 <==> t == StreamType::PortForward,
        t.number() == 2 <==> t == StreamType::X11,
        p.number() == 0 <==> p == ForwardProto::Tcp,
        p.number() == 1 <==> p == ForwardProto::Udp,
{
}

/// The first byte of an envelope tells what it holds: the number of the payload's field, times
/// eight, and two.
pub proof fn law_first_byte_tells_payload(p: PayloadValue, entries: Seq<(u32, u64)>)
    ensures
        ({
            let b = envelope_bytes(Some(p), entries);
            &&& b.len() > 0
            &&& p is ClientHello <==> b[0] == 0x0a
            &&& p is ServerHello <==> b[0] == 0x12
            &&& p is StreamOpen <==> b[0] == 0x22
            &&& p is StreamClose <==> b[0] == 0x2a
            &&& p is TerminalResize <==> b[0] == 0x3a
            &&& p is Heartbeat <==> b[0] == 0x42
            &&& p is Disconnect <==> b[0] == 0x4a
            &&& p is SessionOpen <==> b[0] == 0x52
            &&& p is SessionAccept <==> b[0] == 0x5a
            &&& p is UdpDatagram <==> b[0] == 0x62
        }),
{
    let tag = payload_tag(p);
    assert(1 <= tag <= 12);
    let body = fields_bytes(payload_fields(p, entries));
    let key = crate::wire::varint_bytes((tag * 8 + 2) as nat);
    assert(key =~= seq![(tag * 8 + 2) as u8]);
    assert(envelope_bytes(Some(p), entries) == key + crate::wire::varint_bytes(body.len()) + body);
}

/// Signed numbers and truth values are read as they were sent.
pub proof fn law_numbers_read_back(v: i32, t: bool)
    ensures
        low_i32(i32_bits(v)) == v,
        (bool_bits(t) != 0) == t,
        bool_bits(t) <= 1,
        v >= 0 ==> i32_bits(v) == v,
{
}

/// Fields of an envelope that are no payload do not matter.
pub proof fn law_unknown_fields_do_not_matter(fs: Seq<(u32, Val)>, tag: u32, v: Val)
    requires
        tag == 3 || tag == 6 || tag > 12,
    ensures
        last_payload(fs.push((tag, v))) == last_payload(fs),
{
    assert(fs.push((tag, v)).drop_last() =~= fs);
}

} // verus!
