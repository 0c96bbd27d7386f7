//! The streamd protocol: packets and control framing.

pub mod codec;
pub mod control;
pub mod packets;
