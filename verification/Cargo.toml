[package]
name = "dps_meter"
version = "0.1.0"
edition = "2021"
publish = false

[dependencies]
futures-util = { version = "=0.3.34", default-features = false, features = ["std"] }
libloading = "=0.8.9"
parking_lot = "=0.12.5"
reqwest = { version = "=0.12.28", default-features = false, features = ["stream"] }
serde = { version = "=1.0.229", features = ["derive"] }
serde_json = "=1.0.154"
tauri = { version = "=2.12.5", default-features = false }
tauri-plugin-process = "2"
tokio = { version = "=1.54.1", features = ["fs", "io-util", "rt", "sync", "time"] }
tracing = "=0.1.44"
windows = { version = "=0.62.2", features = ["Win32_Foundation", "Win32_UI_Input_KeyboardAndMouse", "Win32_UI_WindowsAndMessaging"] }
