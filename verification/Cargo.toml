[package]
name = "frenchetv"
version = "0.1.0"
edition = "2021"
publish = false

[dependencies]
anyhow = "1"
base64 = "0.22"
chrono = { version = "0.4", default-features = false, features = ["clock", "std"] }
dirs = "6"
egui = { version = "0.29", default-features = false, features = ["default_fonts"] }
egui_extras = { version = "0.29", default-features = false, features = ["image"] }
egui-phosphor = "0.7"
gl = "0.14"
image = { version = "0.25", default-features = false, features = ["png", "jpeg"] }
khronos-egl = { version = "6", features = ["dynamic"] }
libmpv2 = { version = "4", default-features = false }
libmpv2-sys = "4"
quick-xml = "0.37"
reqwest = { version = "0.12", default-features = false, features = ["cookies", "rustls-tls"] }
serde_json = "1"
tokio = { version = "1", features = ["rt-multi-thread", "net", "io-util", "time", "sync", "macros", "process"] }
tracing = "0.1"
tracing-subscriber = { version = "0.3", features = ["env-filter"] }
url = "2"
zip = { version = "2", default-features = false, features = ["deflate"] }
