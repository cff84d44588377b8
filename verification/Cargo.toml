[package]
name = "windows_tool"
version = "0.1.0"
edition = "2021"
publish = false

[dependencies]
encoding_rs = "0.8"
indexmap = "2"
serde = { version = "1", features = ["derive"] }
serde_json = "1"
chrono = "0.4"
ansi_term = "0.12"
winreg = "*"
winapi = { version = "0.3", features = ["processthreadsapi", "securitybaseapi", "winnt", "shlobj", "knownfolders", "combaseapi", "minwindef"] }
lazy_static = "1"
hex = "0.4"
