//! The streamd client.

pub mod args;
pub mod control;
pub mod cursor;
pub mod nal;
pub mod render;
pub mod video_laws;
pub mod video_rx;
