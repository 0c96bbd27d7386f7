[package]
name = "streamd"
version = "0.1.0"
edition = "2021"
publish = false

[dependencies]
anyhow = "=1.0.104"
bincode = { version = "=2.0.1", features = ["serde"] }
bytes = "=1.12.1"
clap = { version = "=4.6.7", features = ["derive", "env"] }
cocoa = "0.26"
core-foundation = "0.10"
core-graphics = "0.24"
core-video = { version = "=0.6.1", features = ["metal"] }
crossbeam-channel = "=0.5.17"
metal = "=0.33.0"
nix = { version = "=0.29.0", features = ["fs", "ioctl", "mman", "process", "sched"] }
objc = "=0.2.7"
quinn = "=0.11.12"
rcgen = "=0.13.2"
rdev = "=0.5.3"
rustls = { version = "=0.23.46", default-features = false, features = ["ring", "std"] }
tokio = { version = "=1.54.1", features = ["full"] }
tracing = "=0.1.44"
tracing-subscriber = { version = "=0.3.23", features = ["env-filter"] }
wayland-client = "=0.31.15"
wayland-protocols = { version = "=0.32.13", features = ["client", "staging"] }
windows = { version = "=0.58.0", features = ["Win32_Foundation", "Win32_Graphics_Direct3D", "Win32_Graphics_Direct3D11", "Win32_Graphics_Direct3D_Fxc", "Win32_Graphics_Dxgi", "Win32_Graphics_Dxgi_Common", "Win32_UI_Input_KeyboardAndMouse", "Win32_UI_WindowsAndMessaging"] }
