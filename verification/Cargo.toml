[package]
name = "perfwin"
version = "0.1.0"
edition = "2021"
publish = false

[dependencies]
anyhow = "1"
chrono = { version = "0.4", features = ["serde"] }
log = "0.4"
parking_lot = "0.12"
pyo3 = "0.22"
regex = "1"
serde = { version = "1", features = ["derive"] }
sysinfo = "0.32"
windows = { version = "0.52", features = ["Win32_Foundation", "Win32_System_ProcessStatus", "Win32_System_Threading", "Win32_System_Performance", "Win32_System_Memory", "Win32_Graphics_Dxgi", "Win32_Graphics_Dxgi_Common"] }
