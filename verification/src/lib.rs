//! Low-latency remote desktop streaming: wire formats, video packetisation and
//! reassembly, cursor tracking, input capture, session rules and the frame
//! pipeline of a streaming server and its clients.

pub mod clock;
pub mod delivery;
pub mod displays;
pub mod fragments;
pub mod framing;
pub mod streamd_client;
pub mod streamd_proto;
pub mod streamd_server;
pub mod text;
pub mod wire;
pub mod yang;
pub mod yin_yang_proto;
