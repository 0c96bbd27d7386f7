//! The Yang client.

pub mod capture;
pub mod control;
pub mod ffi;
pub mod interpolator;
pub mod keys;
pub mod options;
pub mod render;
pub mod slice_state;
pub mod stream_laws;
pub mod telemetry;
pub mod video_laws;
pub mod video_rx;
