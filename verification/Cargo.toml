[package]
name = "solstice_sftp"
version = "0.1.0"
edition = "2021"
publish = false

[dependencies]
anyhow = "=1.0.104"
async-trait = "=0.1.92"
russh-sftp = "=2.0.8"
tokio = { version = "=1.54.1", features = ["fs", "io-util"] }
tracing = "=0.1.44"
windows = { version = "=0.58.0", features = ["Win32_Storage_FileSystem"] }
