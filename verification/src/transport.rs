//! Datagrams: a plain [`PacketHeader`], and an [`Envelope`] behind it.
//!
//! The envelope of a data packet is encrypted, under the packet's number. That of a
//! handshake packet is plain, or encrypted by the handshake itself.
use vstd::prelude::*;

use crate::bytes::{push_all, to_vec};
use crate::crypto::aead::{canonical, fits, opened, sealed, CipherValue};
use crate::crypto::AeadCipher;
use crate::net::SocketAddr;
use crate::protocol::{
    decoded, has_header, header_bytes, is_encoding, law_envelope_round_trip, law_header_injective,
    Envelope, PacketHeader, PayloadValue, HEADER_SIZE, PROTOCOL_VERSION,
};

verus! {

/// The longest datagram.
pub const MAX_DATAGRAM: usize = 65_507;

/// A datagram that was received.
pub struct ReceivedPacket {
    /// Who sent it.
    pub peer: SocketAddr,
    /// Its header.
    pub header: PacketHeader,
    /// What stands behind the header, encrypted or not.
    pub payload_bytes: Vec<u8>,
}

/// Why a packet cannot be made or read.
#[derive(Debug, Clone, Copy, PartialEq, Eq, Structural)]
pub enum TransportError {
    /// Encryption or decryption failed.
    Crypto,
    /// The payload is not an envelope.
    Malformed,
}

/// The value of an optional cipher.
pub open spec fn opt_cipher(c: Option<&AeadCipher>) -> Option<CipherValue> {
    match c {
        Some(c) => Some(c@),
        None => None,
    }
}

/// The payload of a packet with the envelope `env`: encrypted under the packet's number,
/// where there is a cipher.
pub open spec fn packet_payload(env: Seq<u8>, seq: u64, cipher: Option<CipherValue>) -> Seq<u8> {
    match cipher {
        Some(c) => sealed(c, seq, env),
        None => env,
    }
}

/// The bytes of a packet. It fails only where the envelope is too long to encrypt.
pub fn encode_packet(
    header: &PacketHeader,
    envelope: &Envelope,
    cipher: Option<&AeadCipher>,
) -> (r: Result<Vec<u8>, TransportError>)
    ensures
        exists|env: Seq<u8>| #[trigger]
            is_encoding(envelope@, env) && (match r {
                Ok(b) => {
                    &&& b@ == header_bytes(*header) + packet_payload(
                        env,
                        header.packet_seq,
                        opt_cipher(cipher),
                    )
                    &&& opt_cipher(cipher) matches Some(c) ==> fits(c, env.len()) && opened(
                        c,
                        header.packet_seq,
                        packet_payload(env, header.packet_seq, opt_cipher(cipher)),
                    ) == Some(env)
                },
                Err(e) => {
                    &&& e == TransportError::Crypto
                    &&& opt_cipher(cipher) matches Some(c)
                    &&& !fits(c, env.len())
                },
            }),
{
    let env = envelope.encode_to_vec();
    let ghost plain = env@;
    let payload = match cipher {
        Some(c) => match c.encrypt(header.packet_seq, env.as_slice()) {
            Ok(p) => p,
            Err(_) => {
                assert(is_encoding(envelope@, plain));
                return Err(TransportError::Crypto);
            },
        },
        None => env,
    };
    let mut buf = header.encode();
    push_all(&mut buf, payload.as_slice());
    assert(is_encoding(envelope@, plain));
    Ok(buf)
}

/// The header and payload of a datagram; `None` where it is too short for a header or of
/// another version.
pub fn parse_packet(peer: SocketAddr, data: &[u8]) -> (r: Option<ReceivedPacket>)
    ensures
        r is Some <==> has_header(data@),
        r matches Some(p) ==> {
            &&& p.peer == peer
            &&& header_bytes(p.header) == data@.take(HEADER_SIZE as int)
            &&& p.payload_bytes@ == data@.skip(HEADER_SIZE as int)
        },
{
    match PacketHeader::decode(data) {
        None => None,
        Some(header) => {
            let rest = &data[HEADER_SIZE..data.len()];
            assert(rest@ =~= data@.skip(HEADER_SIZE as int));
            Some(ReceivedPacket { peer, header, payload_bytes: to_vec(rest) })
        },
    }
}

/// Decrypts and reads the payload of data packet `packet_seq`.
pub fn decode_data_packet(payload_bytes: &[u8], packet_seq: u64, cipher: &AeadCipher) -> (r: Result<
    Envelope,
    TransportError,
>)
    ensures
        match opened(cipher@, packet_seq, payload_bytes@) {
            None => r matches Err(e) && e == TransportError::Crypto,
            Some(plain) => match decoded(plain) {
                None => r matches Err(e) && e == TransportError::Malformed,
                Some(p) => r matches Ok(env) && env@ == p,
            },
        },
        canonical(cipher@, packet_seq, payload_bytes@),
{
    match cipher.decrypt(packet_seq, payload_bytes) {
        Err(_) => Err(TransportError::Crypto),
        Ok(plain) => decode_plaintext_packet(plain.as_slice()),
    }
}

/// Reads a payload that is not encrypted.
pub fn decode_plaintext_packet(payload_bytes: &[u8]) -> (r: Result<Envelope, TransportError>)
    ensures
        match decoded(payload_bytes@) {
            None => r matches Err(e) && e == TransportError::Malformed,
            Some(p) => r matches Ok(env) && env@ == p,
        },
{
    match Envelope::decode(payload_bytes) {
        Ok(env) => Ok(env),
        Err(_) => Err(TransportError::Malformed),
    }
}

/// A packet is received as it was sent: with the same header, and a payload that is read
/// back as the same envelope (behind decryption, where there is a cipher).
pub proof fn law_packet_round_trip(
    header: PacketHeader,
    p: Option<PayloadValue>,
    env: Seq<u8>,
    cipher: Option<CipherValue>,
    received: PacketHeader,
)
    requires
        header.version == PROTOCOL_VERSION,
        is_encoding(p, env),
        env.len() <= u64::MAX,
        cipher matches Some(c) ==> opened(
            c,
            header.packet_seq,
            packet_payload(env, header.packet_seq, cipher),
        ) == Some(env),
        header_bytes(received) == (header_bytes(header) + packet_payload(
            env,
            header.packet_seq,
            cipher,
        )).take(HEADER_SIZE as int),
    ensures
        ({
            let data = header_bytes(header) + packet_payload(env, header.packet_seq, cipher);
            let payload = data.skip(HEADER_SIZE as int);
            &&& has_header(data)
            &&& received.flags == header.flags
            &&& received.session_id@ == header.session_id@
            &&& received.packet_seq == header.packet_seq
            &&& match cipher {
                Some(c) => opened(c, received.packet_seq, payload) matches Some(plain)
                    && decoded(plain) == Some(p),
                None => decoded(payload) == Some(p),
            }
        }),
{
    let payload = packet_payload(env, header.packet_seq, cipher);
    let data = header_bytes(header) + payload;
    crate::bytes::lemma_be_u64(header.packet_seq);
    assert(header_bytes(header).len() == HEADER_SIZE);
    assert(data.take(HEADER_SIZE as int) =~= header_bytes(header));
    assert(data.skip(HEADER_SIZE as int) =~= payload);
    assert(data[0] == header.version);
    law_header_injective(header, received);
    law_envelope_round_trip(p, env);
}

/// A datagram is read if and only if it holds a header of version 1; what stands behind the 26
/// bytes of the header is the payload, and the sender is who sent it.
pub proof fn law_datagram_read(peer: SocketAddr, data: &[u8], r: Option<ReceivedPacket>)
    requires
        call_ensures(parse_packet, (peer, data), r),
    ensures
        r is Some <==> data@.len() >= 26 && data@[0] == 1,
        r matches Some(p) ==> {
            &&& p.peer == peer
            &&& p.header.version == data@[0]
            &&& p.header.flags == data@[1]
            &&& p.header.session_id@ == data@.subrange(2, 18)
            &&& p.header.packet_seq == crate::bytes::be_value(data@.subrange(18, 26))
            &&& p.payload_bytes@ == data@.skip(26)
        },
{
    if let Some(p) = r {
        crate::protocol::law_header_layout(p.header);
        let b = data@.take(26);
        assert(b.subrange(2, 18) =~= data@.subrange(2, 18));
        assert(b.subrange(18, 26) =~= data@.subrange(18, 26));
        assert(b[0] == data@[0] && b[1] == data@[1]);
    }
}

/// A data packet is opened under its own number, and what opens is read as a message; what
/// does not open is refused, and so is what is no message.
pub proof fn law_data_packet_read(
    payload: &[u8],
    seq: u64,
    cipher: AeadCipher,
    r: Result<Envelope, TransportError>,
)
    requires
        call_ensures(decode_data_packet, (payload, seq, &cipher), r),
    ensures
        opened(cipher@, seq, payload@) is None ==> r matches Err(TransportError::Crypto),
        opened(cipher@, seq, payload@) matches Some(plain) ==> (r is Ok <==> decoded(plain)
            is Some),
        r matches Ok(env) ==> (opened(cipher@, seq, payload@) matches Some(plain) && decoded(plain)
            == Some(env@)),
{
}

/// A packet goes from one side to the other: what the sender made of a header and an envelope,
/// the receiver takes apart into the same header, and a payload that it reads as the same
/// envelope, with the same cipher.
pub proof fn law_packet_arrives(
    header: PacketHeader,
    envelope: Envelope,
    cipher: AeadCipher,
    bytes: Vec<u8>,
    peer: SocketAddr,
    data: &[u8],
    received: ReceivedPacket,
    payload: &[u8],
    r: Result<Envelope, TransportError>,
)
    requires
        header.version == 1,
        call_ensures(encode_packet, (&header, &envelope, Some(&cipher)), Ok(bytes)),
        data@ == bytes@,
        call_ensures(parse_packet, (peer, data), Some(received)),
        payload@ == received.payload_bytes@,
        call_ensures(decode_data_packet, (payload, received.header.packet_seq, &cipher), r),
    ensures
        received.header.flags == header.flags,
        received.header.session_id@ == header.session_id@,
        received.header.packet_seq == header.packet_seq,
        r matches Ok(env) && env@ == envelope@,
{
    let env = choose|env: Seq<u8>| #[trigger]
        is_encoding(envelope@, env) && bytes@ == header_bytes(header) + packet_payload(
            env,
            header.packet_seq,
            opt_cipher(Some(&cipher)),
        ) && fits(cipher@, env.len()) && opened(
            cipher@,
            header.packet_seq,
            packet_payload(env, header.packet_seq, opt_cipher(Some(&cipher))),
        ) == Some(env);
    law_packet_round_trip(header, envelope@, env, Some(cipher@), received.header);
}

} // verus!
