//! Core of a local live-reload development server: a bounded, versioned
//! ring-buffer broadcast channel, and the event-driven components built on
//! it — a recursive filesystem watcher's record decoder and watch table, a
//! serialized command runner, a per-connection coordinator multiplexing one
//! bus across many connections, and a cooperative shutdown protocol — along
//! with the response building, encoding, and hashing the server needs.
//!
//! Every function here carries a contract; the threads, sockets, files, and
//! operating-system calls that drive these decisions live in an unverified
//! shell that passes plain values in and carries the decided actions out.

pub mod channels;
pub mod cli;
pub mod dirwatch;
pub mod encoding;
pub mod error;
pub mod http;
pub mod server;
pub mod ws;
