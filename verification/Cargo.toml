[package]
name = "java_manager"
version = "0.1.0"
edition = "2021"
publish = false

[dependencies]
crossterm = "*"
crossterm_input = "*"
lazy_static = "*"
serde = { version = "*", features = ["derive"] }
serde_json = "*"
windows-sys = { version = "*", features = ["Win32_Foundation", "Win32_UI_WindowsAndMessaging"] }
winreg = "*"
