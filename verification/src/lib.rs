//! Transport and session engine for diagnostics and reflashing of an
//! MZR-DISI family ECU over a CAN bus.
//!
//! The crate is organised leaf-first:
//! - [`frame`]: the ISO-TP-style frame codec, a pure transform between
//!   transport frames and fixed 8-byte CAN messages;
//! - [`transport`]: segmentation and reassembly of byte payloads into
//!   frame sequences, with flow-control pacing, over a CAN capability;
//! - [`security`]: the challenge/response key derivation used for
//!   security access;
//! - [`session`]: the vehicle-specific session layer - authentication
//!   and the download and programming state machines;
//! - [`checksum`]: the ROM checksum computation and correction routine.

pub mod checksum;
pub mod frame;
pub mod security;
pub mod session;
pub mod transport;
