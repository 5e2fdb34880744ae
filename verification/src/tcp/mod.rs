//! The session protocol over a single TCP connection: numbered packets in
//! length-prefixed, encrypted frames.
pub mod cipher;
pub mod frame;
pub mod packet;
pub mod session;
