[package]
name = "backup_mirror"
version = "0.1.0"
edition = "2021"
publish = false

[dependencies]
checksums = "*"
serde = { version = "*", features = ["derive"] }
serde_json = "*"
sysinfo = "*"
