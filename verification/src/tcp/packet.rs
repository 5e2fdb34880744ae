//! The packets of a TCP session.
use vstd::prelude::*;

verus! {

/// A packet of a TCP session.
#[derive(Debug, Clone)]
pub enum Packet {
    /// The client asks for a session.
    ConnectRequest {
        /// Who the client is.
        client_id: String,
        /// The client's half of the key material.
        client_nonce: [u8; 16],
    },
    /// The server answers.
    ConnectResponse {
        /// The server's half of the key material.
        server_nonce: [u8; 16],
    },
    /// Proof that the sender knows the passkey.
    Auth {
        /// The proof.
        mac: [u8; 32],
    },
    /// What the sender has received, on reconnection.
    SyncRequest {
        /// The highest number received.
        last_received_seq: u64,
    },
    /// The answer to a `SyncRequest`.
    SyncResponse {
        /// The highest number received.
        last_received_seq: u64,
    },
    /// Bytes of the terminal.
    TerminalData {
        /// The packet's number.
        seq_num: u64,
        /// The bytes.
        data: Vec<u8>,
    },
    /// A new size of the terminal.
    TerminalResize {
        /// The number of rows.
        rows: u16,
        /// The number of columns.
        cols: u16,
    },
    /// A sign of life.
    Heartbeat,
    /// The end of the session.
    Disconnect,
}

} // verus!
