[package]
name = "ucodectl"
version = "0.1.0"
edition = "2021"
publish = false

[dependencies]
object = "0.36"
raw-cpuid = "11"
rustix = { version = "1", features = ["fs"] }
serde = { version = "1", features = ["derive"] }
serde_json = "1"
sha2 = "0.10"
tempfile = "3"
thiserror = "2"
tracing = "0.1"
windows-sys = { version = "0.59", features = ["Win32_Foundation", "Win32_System_Registry", "Win32_System_Threading"] }
zerocopy = "0.8"
