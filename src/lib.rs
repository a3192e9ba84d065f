//! Tunnels a TCP connection through an HTTP proxy with the CONNECT method.
//!
//! `request` builds the handshake request, `reply` decides whether the
//! proxy accepted it, and `engine` is the state machine that drives the
//! handshake and then relays bytes between the local streams and the socket.
pub mod engine;
pub mod reply;
pub mod request;
pub mod traces;
