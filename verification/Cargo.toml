[package]
name = "cargo-deny"
version = "0.1.0"
edition = "2021"
publish = false

[dependencies]
anyhow = "1"
codespan-reporting = "*"
krates = { version = "*", features = ["metadata"] }
rustsec = { version = "*", default-features = false }
semver = "1"
serde = { version = "1", features = ["derive"] }
serde_json = "1"
smallvec = "1"
tame-index = { version = "*", default-features = false }
toml-span = "*"
