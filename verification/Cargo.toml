[package]
name = "tiny_player"
version = "0.1.0"
edition = "2021"
publish = false

[dependencies]
anyhow = "=1.0.104"
bytemuck = "=1.25.2"
eframe = { version = "=0.37.0", default-features = false, features = ["wgpu", "default_fonts"] }
egui = { version = "=0.37.0", default-features = false }
egui_extras = { version = "=0.37.0", default-features = false, features = ["image"] }
egui_tiles = { version = "=0.18.0", default-features = false }
egui-file-dialog = { version = "=0.15.0", default-features = false }
ffmpeg-the-third = { version = "=6.0.0", default-features = false, features = ["codec", "format", "software-resampling", "software-scaling"] }
flume = "=0.12.0"
futures-util = "=0.3.34"
glam = "=0.34.2"
hound = "=3.5.1"
image = { version = "=0.25.10", default-features = false, features = ["png", "jpeg", "bmp", "ico"] }
quick-m3u8 = "=0.8.0"
reqwest = { version = "=0.13.5", default-features = false, features = ["json", "multipart", "stream"] }
rustfft = "=6.4.1"
serde_json = "=1.0.154"
time = { version = "=0.3.55", features = ["formatting", "parsing", "local-offset"] }
tokio = { version = "=1.54.1", features = ["full"] }
tokio-util = { version = "=0.7.20", features = ["io", "rt"] }
tracing = "=0.1.44"
tracing-subscriber = { version = "=0.3.23", default-features = false, features = ["fmt", "registry", "time", "local-time"] }
webrtc-vad = "=0.4.0"
