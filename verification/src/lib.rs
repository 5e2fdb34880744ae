//! A remote terminal that survives disconnections.
//!
//! The library holds what a client and a server of such a terminal decide and compute; the
//! programs around it do the input and output.
//!
//! - [`text`], [`bytes`], [`hex`]: text, numbers and hexadecimal.
//! - [`wire`], [`fields`], [`protocol`]: messages and how they are written.
//! - [`quic`], [`transport`], [`tcp`]: frames, datagrams and the framing of TCP sessions.
//! - [`crypto`], [`handshake`]: encryption and the key exchange.
//! - [`session`]: what is sent and received, across reconnections.
//! - [`client`], [`server`], [`bootstrap`], [`terminal`]: the two sides of a session.
//! - [`forward`], [`relay`], [`x11`]: forwarded ports and displays.
//! - [`addrfam`], [`net`], [`config`], [`settings`]: addresses and settings.
//! - [`stress`]: load generation.
pub mod addrfam;
pub mod bootstrap;
pub mod bytes;
pub mod client;
pub mod config;
pub mod crypto;
pub mod fields;
pub mod forward;
pub mod handshake;
pub mod hex;
pub mod net;
pub mod protocol;
pub mod quic;
pub mod relay;
pub mod server;
pub mod session;
pub mod settings;
pub mod stress;
pub mod tcp;
pub mod terminal;
pub mod text;
pub mod transport;
pub mod wire;
pub mod x11;
