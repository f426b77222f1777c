//! A protocol-aware reverse proxy core for Minecraft Java Edition.
//!
//! This crate holds the verified heart of the proxy: the wire-protocol
//! codec (VarInt, length-prefixed strings, framed packets, the typed
//! handshake/status/login packets), the JSON emission for status and
//! disconnect payloads, the dynamic upstream registry with its invertible
//! hostname index, and the per-connection routing decisions. The
//! surrounding process (sockets, timers, configuration files) drives
//! these functions from outside.

pub mod config;
pub mod decimal;
pub mod discovery;
pub mod error;
pub mod handshake;
pub mod html;
pub mod json;
pub mod mcstring;
pub mod model;
pub mod packet;
pub mod registry;
pub mod router;
pub mod status;
pub mod strutil;
pub mod text;
pub mod varint;
pub mod wire;

pub use error::CodecError;
pub use varint::VarInt;
