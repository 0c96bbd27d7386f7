//! The streamd server.

pub mod capture;
pub mod control;
pub mod pipeline;
pub mod video_tx;
