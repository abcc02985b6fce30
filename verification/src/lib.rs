//! A minimal multi-user text chat relay: fixed-width frame codec, the
//! server's registry and broadcast pass, and the connection state machine.
//!
//! The wire protocol exchanges frames of exactly `FRAME_LEN` bytes.  A
//! frame's payload is the UTF-8 bytes before the first zero byte; the rest
//! of the frame is zero padding.  A server relays every decoded message to
//! all currently registered peers; peers whose writes fail are evicted.

pub mod codec;
pub mod conn;
pub mod registry;
