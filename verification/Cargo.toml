[package]
name = "nekos"
version = "0.1.0"
edition = "2021"
publish = false

[dependencies]
serde = { version = "=1.0.229", features = ["derive"] }
serde_json = "=1.0.154"
reqwest = { version = "=0.12.28", default-features = false, features = ["blocking", "rustls-tls"] }
getrandom = "=0.2.17"
parking_lot = "=0.12.5"
tokio = { version = "=1.54.1", features = ["rt-multi-thread", "macros", "time"] }
libc = "=0.2.191"
rusqlite = { version = "=0.32.1", features = ["bundled"] }
winreg = "0.52"
windows-sys = { version = "0.52", features = ["Win32_Foundation", "Win32_Networking_WinInet"] }
