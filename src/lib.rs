//! A quiz host's core: WebSocket handshake and framing, and the round engine that
//! broadcasts questions, collects answers under a deadline and keeps scores.
pub mod frame;
pub mod handshake;
pub mod registry;
pub mod quiz;
pub mod engine;
