//! Core logic of a lazy-start proxy for a Minecraft Java Edition server.
//!
//! While the backend game server sleeps, the proxy answers the Minecraft
//! handshake/status exchange itself and wakes the backend on a join attempt;
//! while the backend is online, connections are forwarded verbatim.  This
//! crate holds the verified heart of that proxy: the VarInt codec, the packet
//! framer, the handshake and status wire formats, the per-connection hijack
//! decisions, and the server lifecycle state machine.  The surrounding I/O
//! (sockets, process control, timers) lives outside the library and feeds it
//! plain values.

pub mod command;
pub mod hijack;
pub mod json;
pub mod packet;
pub mod proto;
pub mod server;
pub mod status;
pub mod util;
pub mod varint;
