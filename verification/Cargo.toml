[package]
name = "choreo_tools"
version = "0.1.0"
edition = "2021"
publish = false

[dependencies]
base64 = "=0.22.1"
crossbeam-channel = "=0.5.17"
dirs = "=7.0.0"
grep-regex = "=0.1.14"
grep-searcher = "=0.1.17"
headless_chrome = "=1.0.22"
hex = "=0.4.3"
humfmt = "=0.7.0"
image = { version = "=0.25.10", default-features = false, features = ["png", "jpeg"] }
pdf-inspector = "=1.25.2"
postcard = { version = "=1.1.3", features = ["use-std"] }
rustix = { version = "=1.1.6", features = ["process", "event", "fs", "pipe"] }
schemars = "=1.2.3"
serde = { version = "=1.0.229", features = ["derive"] }
serde_json = "=1.0.154"
sha2 = "=0.10.9"
thiserror = "=2.0.21"
tracing = "=0.1.44"
ureq = "=3.5.1"
url = "=2.5.8"
windows-sys = { version = "=0.61.2", features = ["Win32_Foundation", "Win32_System_JobObjects", "Win32_System_Threading", "Win32_Security"] }
zlob = "=1.7.1"
