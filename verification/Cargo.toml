[package]
name = "localvox"
version = "0.1.0"
edition = "2021"
publish = false

[dependencies]
anyhow = "1"
serde = { version = "1", features = ["derive"] }
serde_json = "1"
sha2 = "0.10"
dirs = "6"
hound = "3"
sysinfo = { version = "0.37", default-features = false, features = ["system"] }
hf-hub = { version = "0.4", default-features = false, features = ["ureq"] }
hotkey-listener = "0.3"

[dev-dependencies]
regex = "1"
