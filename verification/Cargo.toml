[package]
name = "freshstart"
version = "0.1.0"
edition = "2021"
publish = false

[dependencies]
chrono = "0.4"
dirs = "*"
rusqlite = { version = "*", features = ["bundled"] }
serde = { version = "1", features = ["derive"] }
serde_json = "1"
winreg = "*"
windows = { version = "*", features = ["Win32_Storage_FileSystem"] }
