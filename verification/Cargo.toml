[package]
name = "game_scanner"
version = "0.1.0"
edition = "2021"
publish = false

[dependencies]
quick-xml = "=0.41.0"
serde = { version = "=1.0.229", features = ["derive"] }
serde_json = "=1.0.154"
sysinfo = "=0.40.1"
winreg = "=0.56.0"
windows = { version = "=0.62.2", features = ["Management_Deployment", "ApplicationModel", "Foundation_Collections", "Win32_Foundation", "Win32_Security", "Win32_Storage_FileSystem", "Win32_System_Threading"] }
