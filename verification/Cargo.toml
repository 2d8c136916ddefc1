[package]
name = "guest_integrity"
version = "0.1.0"
edition = "2021"
publish = false

[dependencies]
anyhow = "1"
async-trait = "0.1"
libc = "0.2"
nix = { version = "0.29", features = ["mount"] }
openssl = "0.10"
serde = { version = "1", features = ["derive"] }
serde_json = "1"
slog = "2"
slog-scope = "4"
tokio = { version = "1", features = ["rt", "sync"] }
url = "2"
