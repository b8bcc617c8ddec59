[package]
name = "handy"
version = "0.1.0"
edition = "2021"
publish = false

[dependencies]
accessibility-sys = "=0.2.0"
core-foundation = "=0.10.1"
windows = { version = "=0.61.3", features = ["Win32_Foundation", "Win32_System_Com", "Win32_System_Threading", "Win32_UI_Accessibility", "Win32_UI_WindowsAndMessaging"] }
