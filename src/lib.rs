//! Core logic of a remote-desktop engine: session identities, the frame
//! buffer and delta codec, the streaming pipeline, LAN discovery, the
//! connection manager with its direct and relayed transports, request
//! arbitration, permission grants, input decisions and metrics.
//!
//! Everything here is decision and data: sockets, timers, screen capture
//! and input injection belong to the caller, which hands in what happened
//! (a frame, a message, the time) and performs what is returned.

pub mod util;
pub mod ids;
pub mod frame_buffer;
pub mod permissions;
pub mod discovery;
pub mod requests;
pub mod connection;
pub mod delta;
pub mod config;
pub mod perf;
pub mod input;
pub mod streamer;
pub mod relay;
pub mod p2p;
pub mod metrics;
pub mod client;
