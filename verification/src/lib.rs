//! A clipboard-sharing wire protocol: framing codec, command dispatcher,
//! and per-connection server state machine, verified over byte sequences.
//!
//! The codec reads and writes discrete messages (command lines,
//! length-prefixed strings, fixed-size binary payloads) over in-memory
//! byte buffers; the surrounding process moves those bytes over a socket.

pub mod content;

pub mod codec;

pub mod clipboard;

pub mod server;

pub mod client;
