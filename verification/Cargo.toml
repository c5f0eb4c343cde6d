[package]
name = "desktop-ini"
version = "0.1.0"
edition = "2021"
publish = false

[dependencies]
clap = { version = "4", features = ["derive"] }
clap_complete = "4"
encoding_rs = "0.8"
owo-colors = "4"
thiserror = "2"
windows-sys = { version = "0.59", features = ["Win32_Foundation", "Win32_Globalization", "Win32_UI_Shell", "Win32_UI_WindowsAndMessaging"] }
winreg = "0.55"
