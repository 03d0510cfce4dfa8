[package]
name = "stcli-core"
version = "0.1.0"
edition = "2021"
publish = false

[dependencies]
anyhow = "1"
base64 = "0.22"
crc32fast = "1"
flate2 = "1"
keyring = { version = "3", default-features = false }
regress = "0.10"
reqwest = { version = "0.12", default-features = false, features = ["blocking", "rustls-tls"] }
rusqlite = { version = "0.32", features = ["bundled"] }
semver = { version = "1", features = ["serde"] }
serde = { version = "1", features = ["derive"] }
serde_jcs = "0.1"
serde_json = "1"
serde_path_to_error = "0.1"
sha2 = "0.10"
similar = "2"
spdx = "0.10"
thiserror = "2"
tokio = { version = "1", features = ["rt"] }
toml = "0.8"
toml_edit = "0.22"
ulid = { version = "1", features = ["serde"] }
wait-timeout = "0.2"
wasmtime = { version = "30", default-features = false, features = ["component-model", "cranelift", "runtime", "std"] }
zip = { version = "2", default-features = false, features = ["deflate"] }
