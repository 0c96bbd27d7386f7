//! The Yin-Yang protocol: packets, control framing, input framing and key maps.

pub mod codec;
pub mod control;
pub mod input;
pub mod keymap;
pub mod packets;
