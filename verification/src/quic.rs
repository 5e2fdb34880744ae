//! What travels on the streams of a QUIC connection: stream tags, framed messages and
//! terminal chunks.
use vstd::prelude::*;

use crate::bytes::{
    be_bytes, be_value, lemma_be_u32, lemma_be_u64, lemma_be_value_bytes, push_all, to_vec,
    u32_to_be, u64_from_be, u64_to_be,
};
use crate::protocol::{decoded, is_encoding, law_envelope_round_trip, Envelope, PayloadValue};

verus! {

/// The tag of the control stream. The tag is the first byte that a stream's opener sends.
pub const TAG_CONTROL: u8 = 0x01;

/// The tag of the terminal stream.
pub const TAG_PTY: u8 = 0x02;

/// The tag of a forwarded stream.
pub const TAG_FORWARD: u8 = 0x03;

/// The longest message that is read.
pub const MAX_MESSAGE: usize = 4 * 1024 * 1024;

/// The longest terminal chunk that is read.
pub const MAX_CHUNK: usize = 1024 * 1024;

/// Receive window of a stream, in bytes. A stalled stream buffers this much, in chunks of
/// one received frame each, so the window bounds how many chunks pile up.
pub const STREAM_RECEIVE_WINDOW: u32 = 512 * 1024;

/// The count of buffered chunks on one stream beyond which `quinn` gives up the whole
/// connection.
pub const QUINN_ASSEMBLER_CHUNK_CAP: u32 = 1024;

/// Smallest frame payload to plan for.
pub const MIN_EXPECTED_FRAME_PAYLOAD: u32 = 1200;

/// Receive window of a connection, in bytes.
pub const CONNECTION_RECEIVE_WINDOW: u32 = 32 * 1024 * 1024;

/// Send window of a connection, in bytes.
pub const SEND_WINDOW: u64 = 32 * 1024 * 1024;

/// How long a silent connection is kept, in milliseconds.
pub const IDLE_TIMEOUT_MS: u32 = 30_000;

/// How often a keep-alive is sent, in seconds.
pub const KEEP_ALIVE_SECS: u64 = 10;

/// The window never lets more chunks pile up than `quinn` takes, for frames of 512 bytes
/// and more; at the smallest payload to plan for it takes twice as many.
pub proof fn law_window_bounds_chunks(payload: u32)
    requires
        payload >= 512,
    ensures
        STREAM_RECEIVE_WINDOW / payload <= QUINN_ASSEMBLER_CHUNK_CAP,
        payload >= MIN_EXPECTED_FRAME_PAYLOAD ==> 2 * (STREAM_RECEIVE_WINDOW / payload)
            <= QUINN_ASSEMBLER_CHUNK_CAP,
{
    assert(524288u32 / payload <= 1024) by (nonlinear_arith)
        requires
            payload >= 512,
    ;
    if payload >= MIN_EXPECTED_FRAME_PAYLOAD {
        assert(2 * (524288u32 / payload) <= 1024) by (nonlinear_arith)
            requires
                payload >= 1200,
        ;
    }
}

/// The self-signed certificate for a name and its private key, as DER, that random bytes
/// make.
pub uninterp spec fn self_signed(name: Seq<char>, random: Seq<u8>) -> (Seq<u8>, Seq<u8>);

/// Makes a key pair and a self-signed certificate with
/// `rcgen::generate_simple_self_signed`, which takes every name in ASCII. The contract names
/// the certificate and the private key as made from the name and some random bytes, and says
/// no more of them.
#[verifier::external_body]
fn make_self_signed(name: &str) -> (r: (Vec<u8>, Vec<u8>))
    requires
        forall|i: int| 0 <= i < name@.len() ==> (#[trigger] name@[i]) < '\u{80}',
    ensures
        exists|random: Seq<u8>| #[trigger] self_signed(name@, random) == (r.0@, r.1@),
{
    let ck = rcgen::generate_simple_self_signed(vec![name.to_string()]).expect(
        "a name in ASCII is taken",
    );
    (ck.cert.der().to_vec(), ck.signing_key.serialize_der())
}

/// The name that a server's certificate is made for.
pub const CERT_NAME: &'static str = "etr";

/// A fresh self-signed certificate of a server and its private key, as DER.
pub fn generate_self_signed_cert() -> (r: (Vec<u8>, Vec<u8>))
    ensures
        exists|random: Seq<u8>| #[trigger] self_signed(CERT_NAME@, random) == (r.0@, r.1@),
{
    proof {
        reveal_strlit("etr");
    }
    make_self_signed(CERT_NAME)
}

/// A one-line description of the encryption of a connection.
pub fn tls_info() -> (r: &'static str)
    ensures
        r@
            == "TLS 1.3/QUIC (AES-256-GCM-SHA384 | AES-128-GCM-SHA256 | ChaCha20-Poly1305-SHA256, cert-pinned)"@,
{
    "TLS 1.3/QUIC (AES-256-GCM-SHA384 | AES-128-GCM-SHA256 | ChaCha20-Poly1305-SHA256, cert-pinned)"
}

/// Why a frame cannot be read.
#[derive(Debug, Clone, Copy, PartialEq, Eq, Structural)]
pub enum FrameError {
    /// The frame announces more bytes than are accepted.
    TooLarge,
    /// The stream ends in the middle of the frame.
    Truncated,
    /// The frame's content is not a message.
    Malformed,
}

// ---------------------------------------------------------------------------
// Messages
// ---------------------------------------------------------------------------

/// `body` behind its length: the low 32 bits of it, most significant byte first.
pub open spec fn framed(body: Seq<u8>) -> Seq<u8> {
    be_bytes(body.len() % 0x1_0000_0000, 4) + body
}

/// `body` behind its length.
pub fn frame(body: &[u8]) -> (r: Vec<u8>)
    ensures
        r@ == framed(body@),
{
    let len: u32 = (body.len() as u64 % 0x1_0000_0000) as u32;
    let mut r: Vec<u8> = to_vec(u32_to_be(len).as_slice());
    push_all(&mut r, body);
    r
}

/// The length that the four bytes of a prefix announce; an error where it is above `max`.
pub fn frame_len(prefix: &[u8], max: usize) -> (r: Result<usize, FrameError>)
    requires
        prefix@.len() == 4,
    ensures
        r == (if be_value(prefix@) > max {
            Err::<usize, FrameError>(FrameError::TooLarge)
        } else {
            Ok(be_value(prefix@) as usize)
        }),
{
    let len: u64 = u64_from_be(prefix);
    if len > max as u64 {
        Err(FrameError::TooLarge)
    } else {
        Ok(len as usize)
    }
}

/// The bytes to send for a message: the message behind its length.
pub fn write_msg(env: &Envelope) -> (r: Vec<u8>)
    ensures
        exists|body: Seq<u8>| #[trigger] is_encoding(env@, body) && r@ == framed(body),
{
    let body = env.encode_to_vec();
    frame(body.as_slice())
}

/// The length that the first four bytes announce.
pub open spec fn announced(data: Seq<u8>) -> nat {
    be_value(data.take(4))
}

/// The message at the start of `data`, which is all that a stream brings: `None` where the
/// stream ends before a length.
pub fn read_msg(data: &[u8]) -> (r: Result<Option<Envelope>, FrameError>)
    ensures
        if data@.len() < 4 {
            r matches Ok(None)
        } else if announced(data@) > MAX_MESSAGE {
            r matches Err(e) && e == FrameError::TooLarge
        } else if data@.len() < 4 + announced(data@) {
            r matches Err(e) && e == FrameError::Truncated
        } else {
            let body = data@.subrange(4, (4 + announced(data@)) as int);
            match decoded(body) {
                None => r matches Err(e) && e == FrameError::Malformed,
                Some(p) => r matches Ok(Some(env)) && env@ == p,
            }
        },
{
    if data.len() < 4 {
        return Ok(None);
    }
    assert(data@.subrange(0, 4) =~= data@.take(4));
    let len: usize = match frame_len(&data[0..4], MAX_MESSAGE) {
        Ok(n) => n,
        Err(e) => {
            return Err(e);
        },
    };
    if data.len() - 4 < len {
        return Err(FrameError::Truncated);
    }
    match Envelope::decode(&data[4..4 + len]) {
        Ok(env) => Ok(Some(env)),
        Err(_) => Err(FrameError::Malformed),
    }
}

/// A message that is not too long is read back as it was written, whatever follows it on
/// the stream.
pub proof fn law_msg_round_trip(p: Option<PayloadValue>, body: Seq<u8>, rest: Seq<u8>)
    requires
        is_encoding(p, body),
        body.len() <= MAX_MESSAGE,
    ensures
        ({
            let data = framed(body) + rest;
            &&& announced(data) == body.len()
            &&& data.len() >= 4 + announced(data)
            &&& decoded(data.subrange(4, (4 + announced(data)) as int)) == Some(p)
        }),
{
    let data = framed(body) + rest;
    lemma_be_u32(body.len() as u32);
    assert(data.take(4) =~= be_bytes(body.len(), 4));
    assert(data.subrange(4, (4 + body.len()) as int) =~= body);
    law_envelope_round_trip(p, body);
}

// ---------------------------------------------------------------------------
// Terminal chunks
// ---------------------------------------------------------------------------

/// A terminal chunk: its number in eight bytes, its length in four, and its data.
pub open spec fn chunk_bytes(seq: u64, data: Seq<u8>) -> Seq<u8> {
    be_bytes(seq as nat, 8) + be_bytes(data.len() % 0x1_0000_0000, 4) + data
}

/// The bytes to send for a terminal chunk.
pub fn write_pty_chunk(seq: u64, data: &[u8]) -> (r: Vec<u8>)
    ensures
        r@ == chunk_bytes(seq, data@),
{
    let len: u32 = (data.len() as u64 % 0x1_0000_0000) as u32;
    let mut r: Vec<u8> = to_vec(u64_to_be(seq).as_slice());
    push_all(&mut r, u32_to_be(len).as_slice());
    push_all(&mut r, data);
    r
}

/// The number and the length that the twelve bytes of a chunk's header announce.
pub fn chunk_header(header: &[u8]) -> (r: Result<(u64, usize), FrameError>)
    requires
        header@.len() == 12,
    ensures
        ({
            let seq = be_value(header@.take(8));
            let len = be_value(header@.subrange(8, 12));
            if len > MAX_CHUNK {
                r == Err::<(u64, usize), FrameError>(FrameError::TooLarge)
            } else {
                r == Ok::<(u64, usize), FrameError>((seq as u64, len as usize))
            }
        }),
{
    assert(header@.subrange(0, 8) =~= header@.take(8));
    let seq: u64 = u64_from_be(&header[0..8]);
    match frame_len(&header[8..12], MAX_CHUNK) {
        Ok(len) => Ok((seq, len)),
        Err(e) => Err(e),
    }
}

/// The chunk at the start of `data`, which is all that a stream brings: `None` where the
/// stream ends before a header.
pub fn read_pty_chunk(data: &[u8]) -> (r: Result<Option<(u64, Vec<u8>)>, FrameError>)
    ensures
        if data@.len() < 12 {
            r matches Ok(None)
        } else {
            let seq = be_value(data@.take(8));
            let len = be_value(data@.subrange(8, 12));
            if len > MAX_CHUNK {
                r matches Err(e) && e == FrameError::TooLarge
            } else if data@.len() < 12 + len {
                r matches Err(e) && e == FrameError::Truncated
            } else {
                r matches Ok(Some((s, d))) && s == seq && d@ == data@.subrange(
                    12,
                    (12 + len) as int,
                )
            }
        },
{
    if data.len() < 12 {
        return Ok(None);
    }
    let header = &data[0..12];
    assert(header@.take(8) =~= data@.take(8));
    assert(header@.subrange(8, 12) =~= data@.subrange(8, 12));
    proof {
        lemma_be_value_bytes(data@.take(8));
        lemma_be_u64_bound(data@.take(8));
    }
    match chunk_header(header) {
        Err(e) => Err(e),
        Ok((seq, len)) => {
            if data.len() - 12 < len {
                return Err(FrameError::Truncated);
            }
            Ok(Some((seq, to_vec(&data[12..12 + len]))))
        },
    }
}

/// Eight bytes write a 64-bit number.
proof fn lemma_be_u64_bound(b: Seq<u8>)
    requires
        b.len() == 8,
    ensures
        be_value(b) <= u64::MAX,
{
    lemma_be_value_bytes(b);
    reveal_with_fuel(vstd::arithmetic::power::pow, 9);
}

/// A chunk that is not too long is read back as it was written, whatever follows it on the
/// stream.
pub proof fn law_chunk_round_trip(seq: u64, data: Seq<u8>, rest: Seq<u8>)
    requires
        data.len() <= MAX_CHUNK,
    ensures
        ({
            let all = chunk_bytes(seq, data) + rest;
            &&& all.len() >= 12 + data.len()
            &&& be_value(all.take(8)) == seq
            &&& be_value(all.subrange(8, 12)) == data.len()
            &&& all.subrange(12, (12 + data.len()) as int) == data
        }),
{
    let all = chunk_bytes(seq, data) + rest;
    lemma_be_u64(seq);
    lemma_be_u32(data.len() as u32);
    assert(all.take(8) =~= be_bytes(seq as nat, 8));
    assert(all.subrange(8, 12) =~= be_bytes(data.len(), 4));
    assert(all.subrange(12, (12 + data.len()) as int) =~= data);
}

// ---------------------------------------------------------------------------
// What is read, and what is refused
// ---------------------------------------------------------------------------

/// A frame is the length of its body in four bytes, most significant first, and the body.
pub proof fn law_frame_layout(body: Seq<u8>)
    requires
        body.len() <= u32::MAX,
    ensures
        framed(body).len() == 4 + body.len(),
        framed(body)[0] == body.len() / 0x100_0000,
        framed(body)[3] == body.len() % 256,
        framed(body).skip(4) == body,
{
    crate::bytes::law_most_significant_first(0, body.len() as u32);
    lemma_be_u32(body.len() as u32);
    assert(framed(body).skip(4) =~= body);
}

/// A message that was written is read as it was, whatever follows it; a stream that ends
/// before a length ends; a length above 4 MiB is refused, and so is a body that is cut off.
pub proof fn law_read_gives_what_was_written(
    p: Option<PayloadValue>,
    body: Seq<u8>,
    rest: Seq<u8>,
    data: &[u8],
    r: Result<Option<Envelope>, FrameError>,
)
    requires
        call_ensures(read_msg, (data,), r),
    ensures
        is_encoding(p, body) && body.len() <= 4 * 1024 * 1024 && data@ == framed(body) + rest ==> (
        r matches Ok(Some(env)) && env@ == p),
        data@.len() < 4 ==> r matches Ok(None),
        data@.len() >= 4 && be_value(data@.take(4)) > 4 * 1024 * 1024 ==> r == Err::<
            Option<Envelope>,
            FrameError,
        >(FrameError::TooLarge),
        data@.len() >= 4 && be_value(data@.take(4)) <= 4 * 1024 * 1024 && data@.len() < 4
            + be_value(data@.take(4)) ==> r == Err::<Option<Envelope>, FrameError>(
            FrameError::Truncated,
        ),
{
    if is_encoding(p, body) && body.len() <= 4 * 1024 * 1024 && data@ == framed(body) + rest {
        law_msg_round_trip(p, body, rest);
    }
}

/// A chunk that was written is read as it was, whatever follows it; a stream that ends before
/// a header ends; a length above 1 MiB is refused, and so is a chunk that is cut off.
pub proof fn law_chunk_read_gives_what_was_written(
    seq: u64,
    chunk: Seq<u8>,
    rest: Seq<u8>,
    data: &[u8],
    r: Result<Option<(u64, Vec<u8>)>, FrameError>,
)
    requires
        call_ensures(read_pty_chunk, (data,), r),
    ensures
        chunk.len() <= 1024 * 1024 && data@ == chunk_bytes(seq, chunk) + rest ==> (r matches Ok(
            Some((s, d)),
        ) && s == seq && d@ == chunk),
        data@.len() < 12 ==> r matches Ok(None),
        data@.len() >= 12 && be_value(data@.subrange(8, 12)) > 1024 * 1024 ==> r matches Err(
            FrameError::TooLarge,
        ),
        data@.len() >= 12 && be_value(data@.subrange(8, 12)) <= 1024 * 1024 && data@.len() < 12
            + be_value(data@.subrange(8, 12)) ==> r matches Err(FrameError::Truncated),
{
    if chunk.len() <= 1024 * 1024 && data@ == chunk_bytes(seq, chunk) + rest {
        law_chunk_round_trip(seq, chunk, rest);
    }
}

/// A chunk is its number in eight bytes, its length in four, both most significant byte
/// first, and the data.
pub proof fn law_chunk_layout(seq: u64, data: Seq<u8>)
    requires
        data.len() <= u32::MAX,
    ensures
        chunk_bytes(seq, data).len() == 12 + data.len(),
        chunk_bytes(seq, data)[0] == seq / 0x100_0000_0000_0000,
        chunk_bytes(seq, data)[7] == seq % 256,
        chunk_bytes(seq, data)[8] == data.len() / 0x100_0000,
        chunk_bytes(seq, data)[11] == data.len() % 256,
        chunk_bytes(seq, data).skip(12) == data,
{
    crate::bytes::law_most_significant_first(seq, data.len() as u32);
    lemma_be_u64(seq);
    lemma_be_u32(data.len() as u32);
    assert(chunk_bytes(seq, data).skip(12) =~= data);
}

/// The tags of the streams.
pub proof fn law_tags()
    ensures
        TAG_CONTROL == 1,
        TAG_PTY == 2,
        TAG_FORWARD == 3,
{
}

/// A connection is kept alive: a keep-alive is sent at least twice before a silent connection
/// is given up, after 30 seconds.
pub proof fn law_kept_alive()
    ensures
        2 * KEEP_ALIVE_SECS * 1000 <= IDLE_TIMEOUT_MS,
        IDLE_TIMEOUT_MS == 30_000,
{
}

} // verus!
