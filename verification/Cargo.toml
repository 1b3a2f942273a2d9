[package]
name = "smol"
version = "0.1.0"
edition = "2021"
publish = false

[dependencies]
base64 = "0.22"
serde = { version = "1", features = ["derive"] }
tauri = { version = "2", default-features = false }
thiserror = "2"
tokio = { version = "1", features = ["time"] }
trash = "5"
uuid = { version = "1", features = ["v4"] }
windows = { version = "0.61", features = ["Win32_Foundation", "Win32_System_Com", "Win32_UI_Shell", "Win32_UI_Shell_Common"] }
