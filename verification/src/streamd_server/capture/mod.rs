//! Screen capture.

pub mod formats;
pub mod outputs;
pub mod pixels;
pub mod pointer;
pub mod wayland;
pub mod windows;
