//! Compiler core for a Wayland-style message protocol.
//!
//! A protocol schema (interfaces with requests, events and enums) is turned
//! into the machinery a server needs to speak the protocol: per-interface
//! behavioural contracts, wire marshalling rules for every argument type,
//! and an opcode-indexed dispatch state machine with precise error reporting.

pub mod args;
pub mod binding;
pub mod casing;
pub mod codec;
pub mod compile;
pub mod dispatch;
pub mod enums;
pub mod error;
pub mod objects;
pub mod protocol;
