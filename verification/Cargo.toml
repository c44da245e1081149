[package]
name = "portweave"
version = "0.1.0"
edition = "2021"
publish = false

[dependencies]
uuid = { version = "=1.29.0", features = ["v4"] }
serde = { version = "=1.0.229", features = ["derive"] }
serde_json = "=1.0.154"
directories = "=6.0.0"
glob = "=0.3.4"
iced = { version = "0.14", default-features = false, features = ["tiny-skia", "thread-pool", "x11"] }
tray-icon = "*"
windows-sys = { version = "0.61", features = ["Win32_Foundation", "Win32_UI_Shell", "Win32_UI_WindowsAndMessaging"] }
winreg = "*"
