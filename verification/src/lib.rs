//! Source RCON protocol engine: frame layout, incremental codec, and the
//! client and server protocol state machines.

pub mod buffer;
pub mod packet;
pub mod codec;
pub mod stream;
pub mod server;
pub mod client;
