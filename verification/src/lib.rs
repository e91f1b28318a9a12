//! Session protocol engine for a handheld console talking to a desktop
//! companion over an unreliable link.
//!
//! The crate covers the wire codec for the fixed-layout binary messages,
//! chunk reassembly with integrity checking, the per-device session registry
//! with timeout eviction, and the packet-to-event dispatch that both
//! transports (datagram sockets and USB bulk endpoints) share.  All I/O stays
//! outside; the library works on plain byte buffers and timestamps handed in
//! by the caller.

pub mod codec;
pub mod crc;
pub mod engine;
pub mod netclient;
pub mod reassembly;
pub mod registry;
pub mod stats;
pub mod strutil;
pub mod text;
pub mod usb;

pub use codec::MessageType;
pub use codec::PspState;
