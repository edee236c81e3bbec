[package]
name = "roxy-can"
version = "0.1.0"
edition = "2021"
publish = false

[dependencies]
can-dbc = "=10.0.0"
roxmltree = "=0.21.2"
chrono = "=0.4.45"
serde = { version = "=1.0.229", features = ["derive"] }
serde_json = "=1.0.154"
rfd = { version = "=0.17.2", default-features = false, features = ["xdg-portal"] }
dear-imgui-rs = "=0.22.0"
windows-sys = { version = "=0.61.2", features = ["Win32_Foundation", "Win32_Media", "Win32_Security", "Win32_Storage_FileSystem", "Win32_System_Console", "Win32_System_DataExchange", "Win32_System_Memory"] }
