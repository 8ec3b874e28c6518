[package]
name = "flowsurface"
version = "0.1.0"
edition = "2021"
publish = false

[dependencies]
arrow-array = "=60.1.0"
arrow-ipc = "=60.1.0"
arrow-schema = "=60.1.0"
bytemuck = { version = "1", features = ["derive"] }
chrono = "=0.4.45"
enum-map = "=2.7.3"
fern = "=0.7.1"
iced_core = "=0.14.0"
iced_wgpu = "=0.14.0"
iced_widget = { version = "=0.14.2", features = ["advanced", "canvas", "wgpu"] }
log = "=0.4.35"
reqwest = { version = "=0.12.28", default-features = false, features = ["rustls-tls"] }
rustc-hash = "=2.1.3"
thiserror = "2"
url = "=2.5.8"
uuid = { version = "=1.29.0", features = ["v4"] }
