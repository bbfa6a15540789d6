[package]
name = "rfn_edit"
version = "0.1.0"
edition = "2021"
publish = false

[dependencies]
regex = "=1.13.1"
slint = { version = "=1.18.1", default-features = false, features = ["std", "compat-1-2"] }
windows = { version = "=0.58.0", features = ["Win32_Foundation", "Win32_System_SystemInformation", "Win32_UI_Shell", "Win32_UI_WindowsAndMessaging"] }
