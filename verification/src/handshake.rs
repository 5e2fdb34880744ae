//! The handshake: one round trip, for a new session and for a reconnect.
//!
//! ```text
//! Client                                   Server
//!   |-- ClientHello (plain) ----------------->|
//!   |                                         |  looks up the passkey, chooses a suite,
//!   |                                         |  makes the shared secret
//!   |<---------- ServerHello (hello key) -----|
//!   |  derives the session key                |
//! ```
//!
//! Each side sends what it has received on every stream; the other drops that from its
//! history and replays the rest.
use std::collections::HashMap;

use vstd::prelude::*;
use vstd::utf8::encode_utf8;

use crate::bytes::{to_array16, to_array32, to_vec};
use crate::crypto::aead::{canonical, fits, opened, sealed, seals, CipherValue};
use crate::crypto::x25519::{encapsulate_with, encapsulated_with, random_secret};
use crate::crypto::{
    derive_hello_cipher, derive_session_cipher, generate_nonce, generate_session_id, hello_cipher,
    law_kem_agreement, law_suite_numbers, offered, session_cipher, suite_of, AeadCipher,
    CipherSuiteId, KemKeyPair,
};
use crate::protocol::{
    decoded, is_encoding, law_envelope_round_trip, ClientHello, ClientHelloValue, Envelope,
    PacketHeader, Payload, PayloadValue, ServerHello, ServerHelloValue, FLAG_HANDSHAKE,
    PROTOCOL_VERSION,
};

verus! {

/// Why a handshake fails.
#[derive(Debug, Clone, Copy, PartialEq, Eq, Structural)]
pub enum HandshakeError {
    /// There is no session with the identifier in the `ClientHello`.
    UnknownSession,
    /// Decryption or key exchange failed: another passkey, or a packet that was changed.
    AuthFailed,
    /// None of the suites is supported.
    UnsupportedSuite,
    /// The packet cannot be read.
    MalformedPacket,
    /// The packet is another message than is expected.
    UnexpectedPacket,
    /// Encryption failed.
    InternalError,
}

impl HandshakeError {
    /// The message for this error.
    pub fn message(self) -> (r: &'static str)
        ensures
            r@ == (match self {
                HandshakeError::UnknownSession => "unknown session ID"@,
                HandshakeError::AuthFailed => "authentication failed"@,
                HandshakeError::UnsupportedSuite => "no supported cipher suite"@,
                HandshakeError::MalformedPacket => "malformed packet"@,
                HandshakeError::UnexpectedPacket => "unexpected packet type"@,
                HandshakeError::InternalError => "internal handshake error"@,
            }),
    {
        match self {
            HandshakeError::UnknownSession => "unknown session ID",
            HandshakeError::AuthFailed => "authentication failed",
            HandshakeError::UnsupportedSuite => "no supported cipher suite",
            HandshakeError::MalformedPacket => "malformed packet",
            HandshakeError::UnexpectedPacket => "unexpected packet type",
            HandshakeError::InternalError => "internal handshake error",
        }
    }
}

// ---------------------------------------------------------------------------
// Client
// ---------------------------------------------------------------------------

/// What a client keeps between its `ClientHello` and the `ServerHello`.
pub struct ClientHandshake {
    /// The session's identifier.
    pub session_id: [u8; 16],
    passkey: String,
    client_nonce: [u8; 32],
    kem_keypair: KemKeyPair,
}

/// What a `ServerHello` gives a client: the session cipher, the suite, and what the server
/// has received.
pub struct ClientOutcome {
    /// The session cipher.
    pub cipher: CipherValue,
    /// The suite that the server chose.
    pub suite: CipherSuiteId,
    /// What the server has received, per stream.
    pub acks: Map<u32, u64>,
}

impl ClientHandshake {
    /// The session's identifier.
    pub closed spec fn id(self) -> [u8; 16] {
        self.session_id
    }

    /// The passkey's bytes.
    pub closed spec fn passkey_bytes(self) -> Seq<u8> {
        encode_utf8(self.passkey@)
    }

    /// The client's nonce.
    pub closed spec fn nonce(self) -> Seq<u8> {
        self.client_nonce@
    }

    /// The client's ephemeral key pair.
    pub closed spec fn keys(self) -> KemKeyPair {
        self.kem_keypair
    }

    /// Whether the key pair's keys belong together.
    pub open spec fn wf(self) -> bool {
        self.keys().wf() && self.nonce().len() == 32
    }

    /// The `ClientHello` that belongs to this state.
    pub open spec fn hello(self, acks: Map<u32, u64>) -> ClientHelloValue {
        ClientHelloValue {
            protocol_version: PROTOCOL_VERSION as u32,
            session_id: self.id()@,
            cipher_suites: offered(),
            client_nonce: self.nonce(),
            kem_public_key: self.keys().public(),
            last_received_seq: acks,
        }
    }

    /// Begins a new session: the state to keep, and the header and envelope to send. The
    /// session identifier, nonce and keys are random.
    pub fn new(passkey: String, last_received_seq: HashMap<u32, u64>) -> (r: (
        Self,
        PacketHeader,
        Envelope,
    ))
        ensures
            begun(passkey@, last_received_seq@, r.0, r.1, r.2),
    {
        let session_id = generate_session_id();
        Self::with_session_id(session_id, passkey, last_received_seq)
    }

    /// Begins to reconnect to the session `session_id`.
    pub fn reconnect(
        session_id: [u8; 16],
        passkey: String,
        last_received_seq: HashMap<u32, u64>,
    ) -> (r: (Self, PacketHeader, Envelope))
        ensures
            begun(passkey@, last_received_seq@, r.0, r.1, r.2),
            r.0.id() == session_id,
    {
        Self::with_session_id(session_id, passkey, last_received_seq)
    }

    /// Begins a handshake for the session `session_id`.
    pub fn with_session_id(
        session_id: [u8; 16],
        passkey: String,
        last_received_seq: HashMap<u32, u64>,
    ) -> (r: (Self, PacketHeader, Envelope))
        ensures
            begun(passkey@, last_received_seq@, r.0, r.1, r.2),
            r.0.id() == session_id,
    {
        let client_nonce = generate_nonce();
        // The key pair is for the first suite of the list, which the server will choose.
        let suites = CipherSuiteId::client_preference();
        let preferred = match CipherSuiteId::from_u32(suites[0]) {
            Some(s) => s,
            None => CipherSuiteId::X25519Aes256GcmSha256,
        };
        let kem_keypair = KemKeyPair::generate(preferred);
        Self::with_randomness(session_id, passkey, last_received_seq, client_nonce, kem_keypair)
    }

    /// Begins a handshake with the given nonce and keys.
    pub fn with_randomness(
        session_id: [u8; 16],
        passkey: String,
        last_received_seq: HashMap<u32, u64>,
        client_nonce: [u8; 32],
        kem_keypair: KemKeyPair,
    ) -> (r: (Self, PacketHeader, Envelope))
        requires
            kem_keypair.wf(),
        ensures
            begun(passkey@, last_received_seq@, r.0, r.1, r.2),
            r.0.id() == session_id,
            r.0.nonce() == client_nonce@,
            r.0.keys() == kem_keypair,
    {
        let hello = ClientHello {
            protocol_version: PROTOCOL_VERSION as u32,
            session_id: to_vec(session_id.as_slice()),
            cipher_suites: CipherSuiteId::client_preference(),
            client_nonce: to_vec(client_nonce.as_slice()),
            kem_public_key: kem_keypair.public_key_bytes(),
            last_received_seq,
        };
        let header = PacketHeader::new(FLAG_HANDSHAKE, session_id, 0);
        let envelope = Envelope { payload: Some(Payload::ClientHello(hello)) };
        let state = ClientHandshake { session_id, passkey, client_nonce, kem_keypair };
        (state, header, envelope)
    }

    /// What the client makes of the payload of a `ServerHello` packet.
    pub open spec fn outcome(self, payload: Seq<u8>) -> Result<ClientOutcome, HandshakeError> {
        match opened(hello_cipher(self.passkey_bytes(), self.nonce()), 0, payload) {
            None => Err(HandshakeError::AuthFailed),
            Some(plain) => match decoded(plain) {
                None => Err(HandshakeError::MalformedPacket),
                Some(Some(PayloadValue::ServerHello(sh))) => self.accepted(sh),
                _ => Err(HandshakeError::UnexpectedPacket),
            },
        }
    }

    /// What the client makes of a `ServerHello`.
    pub open spec fn accepted(self, sh: ServerHelloValue) -> Result<ClientOutcome, HandshakeError> {
        match suite_of(sh.chosen_suite) {
            None => Err(HandshakeError::UnsupportedSuite),
            Some(suite) => if sh.server_nonce.len() != 32 {
                Err(HandshakeError::MalformedPacket)
            } else {
                match self.keys().recovered(sh.kem_ciphertext) {
                    None => Err(HandshakeError::AuthFailed),
                    Some(secret) => Ok(
                        ClientOutcome {
                            cipher: session_cipher(
                                suite,
                                self.passkey_bytes(),
                                secret,
                                self.nonce(),
                                sh.server_nonce,
                            ),
                            suite,
                            acks: sh.last_received_seq,
                        },
                    ),
                }
            },
        }
    }

    /// Reads the payload of a `ServerHello` packet: the session cipher, the suite that the
    /// server chose, and what the server has received.
    pub fn process_server_hello(self, payload_bytes: &[u8]) -> (r: Result<
        (AeadCipher, CipherSuiteId, HashMap<u32, u64>),
        HandshakeError,
    >)
        ensures
            client_result(r, self.outcome(payload_bytes@)),
            canonical(
                hello_cipher(self.passkey_bytes(), self.nonce()),
                0,
                payload_bytes@,
            ),
    {
        let cipher = derive_hello_cipher(
            self.passkey.as_str().as_bytes(),
            self.client_nonce.as_slice(),
        );
        let plain = match cipher.decrypt(0, payload_bytes) {
            Ok(p) => p,
            Err(_) => {
                return Err(HandshakeError::AuthFailed);
            },
        };
        match Envelope::decode(plain.as_slice()) {
            Err(_) => Err(HandshakeError::MalformedPacket),
            Ok(envelope) => match envelope.payload {
                Some(Payload::ServerHello(sh)) => self.accept_server_hello(sh),
                _ => Err(HandshakeError::UnexpectedPacket),
            },
        }
    }

    /// Takes a `ServerHello` that was decrypted.
    pub fn accept_server_hello(self, sh: ServerHello) -> (r: Result<
        (AeadCipher, CipherSuiteId, HashMap<u32, u64>),
        HandshakeError,
    >)
        ensures
            client_result(r, self.accepted(sh@)),
    {
        let suite = match CipherSuiteId::from_u32(sh.chosen_suite) {
            Some(s) => s,
            None => {
                return Err(HandshakeError::UnsupportedSuite);
            },
        };
        let server_nonce: [u8; 32] = match to_array32(sh.server_nonce.as_slice()) {
            Some(n) => n,
            None => {
                return Err(HandshakeError::MalformedPacket);
            },
        };
        let secret = match self.kem_keypair.decapsulate(sh.kem_ciphertext.as_slice()) {
            Ok(s) => s,
            Err(_) => {
                return Err(HandshakeError::AuthFailed);
            },
        };
        let cipher = derive_session_cipher(
            suite,
            self.passkey.as_str().as_bytes(),
            secret.as_slice(),
            self.client_nonce.as_slice(),
            server_nonce.as_slice(),
        );
        Ok((cipher, suite, sh.last_received_seq))
    }
}

/// Whether `state`, `header` and `envelope` begin a handshake.
pub open spec fn begun(
    passkey: Seq<char>,
    acks: Map<u32, u64>,
    state: ClientHandshake,
    header: PacketHeader,
    envelope: Envelope,
) -> bool {
    &&& state.wf()
    &&& state.passkey_bytes() == encode_utf8(passkey)
    &&& header == (PacketHeader {
        version: PROTOCOL_VERSION,
        flags: FLAG_HANDSHAKE,
        session_id: state.id(),
        packet_seq: 0,
    })
    &&& envelope@ == Some(PayloadValue::ClientHello(state.hello(acks)))
}

/// Whether `r` is the result that `o` describes.
pub open spec fn client_result(
    r: Result<(AeadCipher, CipherSuiteId, HashMap<u32, u64>), HandshakeError>,
    o: Result<ClientOutcome, HandshakeError>,
) -> bool {
    match (r, o) {
        (Ok((cipher, suite, acks)), Ok(v)) => cipher@ == v.cipher && suite == v.suite && acks@
            == v.acks,
        (Err(a), Err(b)) => a == b,
        _ => false,
    }
}

// ---------------------------------------------------------------------------
// Server
// ---------------------------------------------------------------------------

/// What a server makes of a `ClientHello`.
pub struct ServerHelloOutcome {
    /// The session's identifier.
    pub session_id: [u8; 16],
    /// The suite that was chosen.
    pub chosen_suite: CipherSuiteId,
    /// The header of the answer.
    pub response_header: PacketHeader,
    /// The payload of the answer: a `ServerHello`, encrypted with the hello key.
    pub response_payload_bytes: Vec<u8>,
    /// The session cipher.
    pub cipher: AeadCipher,
    /// What the client has received, per stream.
    pub client_last_received: HashMap<u32, u64>,
}

/// The `ClientHello` in a packet's payload, or why there is none.
pub open spec fn hello_in(payload: Seq<u8>) -> Result<ClientHelloValue, HandshakeError> {
    match decoded(payload) {
        None => Err(HandshakeError::MalformedPacket),
        Some(Some(PayloadValue::ClientHello(ch))) => if ch.session_id.len() == 16 {
            Ok(ch)
        } else {
            Err(HandshakeError::MalformedPacket)
        },
        _ => Err(HandshakeError::UnexpectedPacket),
    }
}

/// The first suite in the list that is supported.
pub open spec fn first_supported(suites: Seq<u32>) -> Option<CipherSuiteId>
    decreases suites.len(),
{
    if suites.len() == 0 {
        None
    } else {
        match suite_of(suites[0]) {
            Some(s) => Some(s),
            None => first_supported(suites.skip(1)),
        }
    }
}

/// The first suite in the list that is supported.
pub fn choose_suite(suites: &Vec<u32>) -> (r: Option<CipherSuiteId>)
    ensures
        r == first_supported(suites@),
{
    assert(suites@.skip(0) =~= suites@);
    for i in 0..suites.len()
        invariant
            first_supported(suites@) == first_supported(suites@.skip(i as int)),
    {
        assert(suites@.skip(i as int).skip(1) =~= suites@.skip(i + 1));
        if let Some(s) = CipherSuiteId::from_u32(suites[i]) {
            return Some(s);
        }
    }
    None
}

/// The `ServerHello` with the ciphertext `ct` and the nonce `nonce`.
pub open spec fn answer(
    suite: CipherSuiteId,
    ct: Seq<u8>,
    nonce: Seq<u8>,
    acks: Map<u32, u64>,
) -> ServerHelloValue {
    ServerHelloValue {
        chosen_suite: suite.number(),
        server_nonce: nonce,
        kem_ciphertext: ct,
        last_received_seq: acks,
    }
}

/// Whether `r` answers the `ClientHello` `ch`, for a session with the passkey `passkey`,
/// under the ephemeral secret `secret` and the nonce `nonce`.
pub open spec fn answered(
    ch: ClientHelloValue,
    passkey: Seq<u8>,
    acks: Map<u32, u64>,
    secret: Seq<u8>,
    nonce: Seq<u8>,
    r: Result<ServerHelloOutcome, HandshakeError>,
) -> bool {
    if ch.client_nonce.len() != 32 {
        r matches Err(e) && e == HandshakeError::MalformedPacket
    } else {
        match first_supported(ch.cipher_suites) {
            None => r matches Err(e) && e == HandshakeError::UnsupportedSuite,
            Some(suite) => if ch.kem_public_key.len() != 32 {
                r matches Err(e) && e == HandshakeError::AuthFailed
            } else {
                exists|ct: Seq<u8>, ss: Seq<u8>, inner: Seq<u8>| #[trigger]
                    answered_with(ch, suite, passkey, acks, secret, nonce, ct, ss, inner, r)
            },
        }
    }
}

/// [`answered`], for a hello in order: `ct` and `ss` are the ciphertext and the secret that
/// the ephemeral secret makes, and `inner` are the bytes of the `ServerHello`.
pub open spec fn answered_with(
    ch: ClientHelloValue,
    suite: CipherSuiteId,
    passkey: Seq<u8>,
    acks: Map<u32, u64>,
    secret: Seq<u8>,
    nonce: Seq<u8>,
    ct: Seq<u8>,
    ss: Seq<u8>,
    inner: Seq<u8>,
    r: Result<ServerHelloOutcome, HandshakeError>,
) -> bool {
    let hello = hello_cipher(passkey, ch.client_nonce);
    &&& encapsulated_with(secret, ch.kem_public_key, ct, ss)
    &&& ct.len() == 32
    &&& is_encoding(Some(PayloadValue::ServerHello(answer(suite, ct, nonce, acks))), inner)
    &&& match r {
        Err(e) => e == HandshakeError::InternalError && !fits(hello, inner.len()),
        Ok(o) => {
            &&& fits(hello, inner.len())
            &&& o.session_id@ == ch.session_id
            &&& o.chosen_suite == suite
            &&& o.response_header == (PacketHeader {
                version: PROTOCOL_VERSION,
                flags: FLAG_HANDSHAKE,
                session_id: o.session_id,
                packet_seq: 0,
            })
            &&& o.response_payload_bytes@ == sealed(hello, 0, inner)
            &&& opened(hello, 0, o.response_payload_bytes@) == Some(inner)
            &&& o.cipher@ == session_cipher(suite, passkey, ss, ch.client_nonce, nonce)
            &&& o.client_last_received@ == ch.last_received_seq
        },
    }
}

/// Answers the payload of a `ClientHello` packet. `lookup_passkey` gives the passkey of a
/// session, if there is such a session.
///
/// The ephemeral secret and the nonce of the answer are random.
pub fn process_client_hello<F>(
    payload_bytes: &[u8],
    server_last_received: HashMap<u32, u64>,
    lookup_passkey: F,
) -> (r: Result<ServerHelloOutcome, HandshakeError>) where F: Fn(&[u8]) -> Option<String>
    requires
        forall|id: &[u8]| lookup_passkey.requires((id,)),
    ensures
        match hello_in(payload_bytes@) {
            Err(e) => r matches Err(x) && x == e,
            Ok(ch) => exists|id: &[u8], found: Option<String>| #[trigger]
                lookup_passkey.ensures((id,), found) && id@ == ch.session_id && (match found {
                    None => r matches Err(e) && e == HandshakeError::UnknownSession,
                    Some(passkey) => exists|secret: Seq<u8>, nonce: Seq<u8>|
                        secret.len() == 32 && nonce.len() == 32 && #[trigger] answered(
                            ch,
                            encode_utf8(passkey@),
                            server_last_received@,
                            secret,
                            nonce,
                            r,
                        ),
                }),
        },
{
    let envelope = match Envelope::decode(payload_bytes) {
        Ok(e) => e,
        Err(_) => {
            return Err(HandshakeError::MalformedPacket);
        },
    };
    let hello = match envelope.payload {
        Some(Payload::ClientHello(ch)) => ch,
        _ => {
            return Err(HandshakeError::UnexpectedPacket);
        },
    };
    let session_id: [u8; 16] = match to_array16(hello.session_id.as_slice()) {
        Some(id) => id,
        None => {
            return Err(HandshakeError::MalformedPacket);
        },
    };
    let id: &[u8] = session_id.as_slice();
    let ghost ch = hello@;
    let ghost acks = server_last_received@;
    let found = lookup_passkey(id);
    assert(lookup_passkey.ensures((id,), found));
    assert(id@ == ch.session_id);
    let r = match &found {
        None => Err(HandshakeError::UnknownSession),
        Some(passkey) => {
            let secret = random_secret();
            let nonce = generate_nonce();
            let r = answer_client_hello(
                hello,
                session_id,
                passkey.as_str().as_bytes(),
                server_last_received,
                secret,
                nonce,
            );
            assert(secret@.len() == 32 && nonce@.len() == 32);
            assert(answered(ch, encode_utf8(passkey@), acks, secret@, nonce@, r));
            r
        },
    };
    r
}

/// Answers a `ClientHello` for a session with the passkey `passkey`, under the given
/// ephemeral secret and nonce.
pub fn answer_client_hello(
    hello: ClientHello,
    session_id: [u8; 16],
    passkey: &[u8],
    server_last_received: HashMap<u32, u64>,
    secret: [u8; 32],
    server_nonce: [u8; 32],
) -> (r: Result<ServerHelloOutcome, HandshakeError>)
    requires
        session_id@ == hello.session_id@,
    ensures
        answered(hello@, passkey@, server_last_received@, secret@, server_nonce@, r),
{
    let client_nonce: [u8; 32] = match to_array32(hello.client_nonce.as_slice()) {
        Some(n) => n,
        None => {
            return Err(HandshakeError::MalformedPacket);
        },
    };
    let suite = match choose_suite(&hello.cipher_suites) {
        Some(s) => s,
        None => {
            return Err(HandshakeError::UnsupportedSuite);
        },
    };
    let (ciphertext, shared) = match encapsulate_with(secret, hello.kem_public_key.as_slice()) {
        Ok(x) => x,
        Err(_) => {
            return Err(HandshakeError::AuthFailed);
        },
    };
    let cipher = derive_session_cipher(
        suite,
        passkey,
        shared.as_slice(),
        client_nonce.as_slice(),
        server_nonce.as_slice(),
    );
    let ghost ct = ciphertext@;
    let ghost acks = server_last_received@;
    let server_hello = ServerHello {
        chosen_suite: suite.as_u32(),
        server_nonce: to_vec(server_nonce.as_slice()),
        kem_ciphertext: ciphertext,
        last_received_seq: server_last_received,
    };
    let env = Envelope { payload: Some(Payload::ServerHello(server_hello)) };
    let inner = env.encode_to_vec();
    assert(is_encoding(
        Some(PayloadValue::ServerHello(answer(suite, ct, server_nonce@, acks))),
        inner@,
    ));
    let key = derive_hello_cipher(passkey, client_nonce.as_slice());
    match key.encrypt(0, inner.as_slice()) {
        Err(_) => {
            let r = Err(HandshakeError::InternalError);
            assert(answered_with(
                hello@,
                suite,
                passkey@,
                acks,
                secret@,
                server_nonce@,
                ct,
                shared@,
                inner@,
                r,
            ));
            r
        },
        Ok(response_payload_bytes) => {
            let ghost before = hello@;
            let r = Ok(
                ServerHelloOutcome {
                    session_id,
                    chosen_suite: suite,
                    response_header: PacketHeader::new(FLAG_HANDSHAKE, session_id, 0),
                    response_payload_bytes,
                    cipher,
                    client_last_received: hello.last_received_seq,
                },
            );
            assert(answered_with(
                before,
                suite,
                passkey@,
                acks,
                secret@,
                server_nonce@,
                ct,
                shared@,
                inner@,
                r,
            ));
            r
        },
    }
}

// ---------------------------------------------------------------------------
// Laws
// ---------------------------------------------------------------------------

/// The server reads the `ClientHello` that the client sent, with what the client has
/// received.
pub proof fn law_hello_arrives(state: ClientHandshake, acks: Map<u32, u64>, b: Seq<u8>)
    requires
        is_encoding(Some(PayloadValue::ClientHello(state.hello(acks))), b),
        b.len() <= u64::MAX,
    ensures
        hello_in(b) == Ok::<ClientHelloValue, HandshakeError>(state.hello(acks)),
{
    law_envelope_round_trip(Some(PayloadValue::ClientHello(state.hello(acks))), b);
}

/// A server with the client's passkey answers the client's `ClientHello` with a suite from
/// the client's list, unless the answer is too long to encrypt.
pub proof fn law_server_answers(
    state: ClientHandshake,
    client_acks: Map<u32, u64>,
    server_acks: Map<u32, u64>,
    secret: Seq<u8>,
    nonce: Seq<u8>,
    r: Result<ServerHelloOutcome, HandshakeError>,
)
    requires
        state.wf(),
        answered(
            state.hello(client_acks),
            state.passkey_bytes(),
            server_acks,
            secret,
            nonce,
            r,
        ),
    ensures
        match r {
            Ok(o) => o.chosen_suite.number() == offered()[0] && o.client_last_received@
                == client_acks,
            Err(e) => e == HandshakeError::InternalError,
        },
{
    let ch = state.hello(client_acks);
    assert(suite_of(ch.cipher_suites[0]) is Some);
    match state.keys() {
        KemKeyPair::X25519(kp) => {
            assert(kp.wf());
        },
    }
}

/// A handshake derives the same session cipher on both sides: where a server with the
/// client's passkey answers, the client accepts the answer, with the server's suite, cipher
/// and acknowledgements.
pub proof fn law_handshake_agrees(
    state: ClientHandshake,
    client_acks: Map<u32, u64>,
    server_acks: Map<u32, u64>,
    secret: Seq<u8>,
    nonce: Seq<u8>,
    o: ServerHelloOutcome,
)
    requires
        state.wf(),
        nonce.len() == 32,
        answered(
            state.hello(client_acks),
            state.passkey_bytes(),
            server_acks,
            secret,
            nonce,
            Ok(o),
        ),
    ensures
        state.outcome(o.response_payload_bytes@) == Ok::<ClientOutcome, HandshakeError>(
            ClientOutcome { cipher: o.cipher@, suite: o.chosen_suite, acks: server_acks },
        ),
{
    let ch = state.hello(client_acks);
    let passkey = state.passkey_bytes();
    assert(suite_of(ch.cipher_suites[0]) is Some);
    let suite = first_supported(ch.cipher_suites).unwrap();
    match state.keys() {
        KemKeyPair::X25519(kp) => {
            assert(kp.wf());
        },
    }
    let (ct, ss, inner) = choose|ct: Seq<u8>, ss: Seq<u8>, inner: Seq<u8>| #[trigger]
        answered_with(ch, suite, passkey, server_acks, secret, nonce, ct, ss, inner, Ok(o));
    let sh = answer(suite, ct, nonce, server_acks);
    assert(inner.len() <= u64::MAX);
    law_envelope_round_trip(Some(PayloadValue::ServerHello(sh)), inner);
    law_suite_numbers(suite, 0);
    law_kem_agreement(state.keys(), secret, ct, ss);
}

/// After a handshake each side decrypts what the other encrypts: what the server's cipher
/// makes of a plaintext, the client's decrypts to it under the same number, and the other way
/// round.
pub proof fn law_sides_understand_each_other(
    state: ClientHandshake,
    client_acks: Map<u32, u64>,
    server_acks: Map<u32, u64>,
    secret: Seq<u8>,
    nonce: Seq<u8>,
    o: ServerHelloOutcome,
    seq: u64,
    plaintext: Seq<u8>,
    made: Vec<u8>,
)
    requires
        state.wf(),
        nonce.len() == 32,
        answered(
            state.hello(client_acks),
            state.passkey_bytes(),
            server_acks,
            secret,
            nonce,
            Ok(o),
        ),
    ensures
        state.outcome(o.response_payload_bytes@) matches Ok(v) && {
            &&& seals(o.cipher@, seq, plaintext, Ok(made)) ==> opened(v.cipher, seq, made@)
                == Some(plaintext)
            &&& seals(v.cipher, seq, plaintext, Ok(made)) ==> opened(o.cipher@, seq, made@)
                == Some(plaintext)
        },
{
    law_handshake_agrees(state, client_acks, server_acks, secret, nonce, o);
}

/// An answer that does not open under the client's own passkey and nonce is refused with
/// `AuthFailed`, whoever made it and with whatever passkey; what the client accepts did open,
/// and is a `ServerHello`.
pub proof fn law_unopened_answer_is_refused(state: ClientHandshake, payload: Seq<u8>)
    ensures
        ({
            let plain = opened(hello_cipher(state.passkey_bytes(), state.nonce()), 0, payload);
            &&& plain is None ==> state.outcome(payload) == Err::<ClientOutcome, HandshakeError>(
                HandshakeError::AuthFailed,
            )
            &&& state.outcome(payload) is Ok ==> (plain matches Some(p) && decoded(p) matches Some(
                Some(PayloadValue::ServerHello(_)),
            ))
        }),
{
}

/// A changed answer never passes for the server's: it is refused with `AuthFailed`, or opens
/// to something other than what the server wrote.
pub proof fn law_changed_answer_differs(
    state: ClientHandshake,
    client_acks: Map<u32, u64>,
    server_acks: Map<u32, u64>,
    secret: Seq<u8>,
    nonce: Seq<u8>,
    o: ServerHelloOutcome,
    changed: Seq<u8>,
)
    requires
        state.wf(),
        answered(
            state.hello(client_acks),
            state.passkey_bytes(),
            server_acks,
            secret,
            nonce,
            Ok(o),
        ),
        canonical(hello_cipher(state.passkey_bytes(), state.nonce()), 0, changed),
        changed != o.response_payload_bytes@,
    ensures
        ({
            let hello = hello_cipher(state.passkey_bytes(), state.nonce());
            match opened(hello, 0, changed) {
                None => state.outcome(changed) == Err::<ClientOutcome, HandshakeError>(
                    HandshakeError::AuthFailed,
                ),
                Some(p) => opened(hello, 0, o.response_payload_bytes@) matches Some(written)
                    && written != p,
            }
        }),
{
    let ch = state.hello(client_acks);
    let r = Ok::<ServerHelloOutcome, HandshakeError>(o);
    match first_supported(ch.cipher_suites) {
        None => {},
        Some(suite) => {
            if ch.kem_public_key.len() == 32 {
                let (ct, ss, inner) = choose|ct: Seq<u8>, ss: Seq<u8>, inner: Seq<u8>| #[trigger]
                    answered_with(
                        ch,
                        suite,
                        state.passkey_bytes(),
                        server_acks,
                        secret,
                        nonce,
                        ct,
                        ss,
                        inner,
                        r,
                    );
                assert(opened(
                    hello_cipher(state.passkey_bytes(), state.nonce()),
                    0,
                    o.response_payload_bytes@,
                ) == Some(inner));
            }
        },
    }
}

/// A `ClientHello` names the session, offers the suites 3 and 4 in this order, and carries the
/// client's nonce, its public key and what it has received; its packet is a handshake packet
/// with the number 0.
pub proof fn law_hello_says(
    passkey: Seq<char>,
    acks: Map<u32, u64>,
    state: ClientHandshake,
    header: PacketHeader,
    envelope: Envelope,
)
    requires
        begun(passkey, acks, state, header, envelope),
    ensures
        envelope@ matches Some(PayloadValue::ClientHello(ch)) && {
            &&& ch.session_id == header.session_id@
            &&& ch.cipher_suites == seq![3u32, 4u32]
            &&& ch.client_nonce == state.nonce()
            &&& ch.client_nonce.len() == 32
            &&& ch.kem_public_key == state.keys().public()
            &&& ch.last_received_seq == acks
        },
        header.flags % 2 == 1,
        header.packet_seq == 0,
        header.version == 1,
        state.passkey_bytes() == encode_utf8(passkey),
{
}

/// The suite is the first of the client's list that is 3 or 4; without one there is none.
pub proof fn law_first_suite_counts(suites: Seq<u32>, i: int)
    requires
        0 <= i <= suites.len(),
        i < suites.len() ==> suites[i] == 3 || suites[i] == 4,
        forall|j: int| 0 <= j < i ==> (#[trigger] suites[j]) != 3 && suites[j] != 4,
    ensures
        i == suites.len() ==> first_supported(suites) is None,
        i < suites.len() ==> (first_supported(suites) matches Some(s) && s.number() == suites[i]),
    decreases suites.len(),
{
    if suites.len() > 0 && i > 0 {
        assert(suites[0] != 3 && suites[0] != 4);
        let rest = suites.skip(1);
        if i < suites.len() {
            assert(rest[i - 1] == suites[i]);
        }
        assert forall|j: int| 0 <= j < i - 1 implies (#[trigger] rest[j]) != 3 && rest[j] != 4 by {
            assert(rest[j] == suites[j + 1]);
        }
        law_first_suite_counts(rest, i - 1);
    }
}

/// A server reads only a `ClientHello` that names a session in sixteen bytes: another message
/// is unexpected, and what is no message or names no session is malformed.
pub proof fn law_hello_is_checked(payload: Seq<u8>)
    ensures
        match decoded(payload) {
            Some(Some(PayloadValue::ClientHello(ch))) => if ch.session_id.len() == 16 {
                hello_in(payload) == Ok::<ClientHelloValue, HandshakeError>(ch)
            } else {
                hello_in(payload) == Err::<ClientHelloValue, HandshakeError>(
                    HandshakeError::MalformedPacket,
                )
            },
            Some(_) => hello_in(payload) == Err::<ClientHelloValue, HandshakeError>(
                HandshakeError::UnexpectedPacket,
            ),
            None => hello_in(payload) == Err::<ClientHelloValue, HandshakeError>(
                HandshakeError::MalformedPacket,
            ),
        },
{
}

/// A server refuses a nonce that is not 32 bytes long, a list without a suite that it knows,
/// and a public key that is not 32 bytes long; else it answers with the suite, or fails where
/// the answer is too long to encrypt.
pub proof fn law_answer_refusals(
    ch: ClientHelloValue,
    passkey: Seq<u8>,
    acks: Map<u32, u64>,
    secret: Seq<u8>,
    nonce: Seq<u8>,
    r: Result<ServerHelloOutcome, HandshakeError>,
)
    requires
        answered(ch, passkey, acks, secret, nonce, r),
    ensures
        ch.client_nonce.len() != 32 ==> r matches Err(HandshakeError::MalformedPacket),
        ch.client_nonce.len() == 32 && first_supported(ch.cipher_suites) is None ==> r matches Err(
            HandshakeError::UnsupportedSuite,
        ),
        ch.client_nonce.len() == 32 && first_supported(ch.cipher_suites) is Some
            && ch.kem_public_key.len() != 32 ==> r matches Err(HandshakeError::AuthFailed),
        r matches Ok(o) ==> {
            &&& o.session_id@ == ch.session_id
            &&& first_supported(ch.cipher_suites) == Some(o.chosen_suite)
            &&& o.client_last_received@ == ch.last_received_seq
            &&& o.response_header.flags % 2 == 1
            &&& o.response_header.packet_seq == 0
            &&& o.response_header.session_id == o.session_id
        },
{
}

/// A client refuses a suite other than 3 and 4, a nonce that is not 32 bytes long and a
/// ciphertext that is not 32 bytes long, each with its error, and takes everything else.
pub proof fn law_acceptance_refusals(state: ClientHandshake, sh: ServerHelloValue)
    ensures
        sh.chosen_suite != 3 && sh.chosen_suite != 4 ==> state.accepted(sh) == Err::<
            ClientOutcome,
            HandshakeError,
        >(HandshakeError::UnsupportedSuite),
        (sh.chosen_suite == 3 || sh.chosen_suite == 4) ==> {
            &&& sh.server_nonce.len() != 32 ==> state.accepted(sh) == Err::<
                ClientOutcome,
                HandshakeError,
            >(HandshakeError::MalformedPacket)
            &&& sh.server_nonce.len() == 32 && sh.kem_ciphertext.len() != 32 ==> state.accepted(sh)
                == Err::<ClientOutcome, HandshakeError>(HandshakeError::AuthFailed)
            &&& sh.server_nonce.len() == 32 && sh.kem_ciphertext.len() == 32 ==> (state.accepted(
                sh,
            ) matches Ok(v) && v.suite.number() == sh.chosen_suite && v.acks
                == sh.last_received_seq)
        },
{
}

/// A whole handshake: the client takes the answer of a server with its passkey, and comes out
/// with the server's cipher, its suite, and what the server has received.
pub proof fn law_handshake_completes(
    state: ClientHandshake,
    client_acks: Map<u32, u64>,
    server_acks: Map<u32, u64>,
    secret: Seq<u8>,
    nonce: Seq<u8>,
    o: ServerHelloOutcome,
    payload: &[u8],
    r: Result<(AeadCipher, CipherSuiteId, HashMap<u32, u64>), HandshakeError>,
)
    requires
        state.wf(),
        nonce.len() == 32,
        answered(
            state.hello(client_acks),
            state.passkey_bytes(),
            server_acks,
            secret,
            nonce,
            Ok(o),
        ),
        payload@ == o.response_payload_bytes@,
        call_ensures(ClientHandshake::process_server_hello, (state, payload), r),
    ensures
        r matches Ok(x) && x.0@ == o.cipher@ && x.1 == o.chosen_suite && x.2@ == server_acks,
        o.chosen_suite.number() == 3,
{
    law_handshake_agrees(state, client_acks, server_acks, secret, nonce, o);
    law_server_answers(state, client_acks, server_acks, secret, nonce, Ok(o));
}

/// A session that the server does not know is answered with `UnknownSession`; what is no
/// `ClientHello` with a session is refused before it is looked up.
pub proof fn law_unknown_session<F: Fn(&[u8]) -> Option<String>>(
    payload: &[u8],
    acks: HashMap<u32, u64>,
    lookup: F,
    r: Result<ServerHelloOutcome, HandshakeError>,
)
    requires
        call_ensures(process_client_hello::<F>, (payload, acks, lookup), r),
        forall|id: &[u8], found: Option<String>|
            #[trigger] lookup.ensures((id,), found) ==> found is None,
    ensures
        hello_in(payload@) is Ok ==> r matches Err(HandshakeError::UnknownSession),
        hello_in(payload@) matches Err(e) ==> (r matches Err(x) && x == e),
{
}

} // verus!
