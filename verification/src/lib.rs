//! A real-time broadcast hub: clients connect over a message channel, send
//! `click` events, and receive a personal acknowledgment plus a broadcast of
//! the updated global counter to every other connected client.
//!
//! The hub itself — connection registry, shared click counters, the
//! per-session protocol step, and the broadcast fan-out — lives here, fully
//! specified and verified. Transport (the WebSocket handshake, the socket
//! read/write loops, the accept loop) is ordinary async plumbing and stays
//! outside the library.

pub mod codec;
pub mod hub;
pub mod laws;
