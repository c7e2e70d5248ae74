[package]
name = "super-release"
version = "0.1.0"
edition = "2021"
publish = false

[dependencies]
regex = "1"
semver = "1"
glob-match = "0.2"
percent-encoding = "2"
git-cliff-core = { version = "*", default-features = false }
serde = { version = "1", features = ["derive"] }
serde_json = "1"
serde-saphyr = "*"
jsonc-parser = { version = "*", features = ["serde"] }
jsonschema = { version = "*", default-features = false }
chrono = "0.4"
anyhow = "1"
git2 = { version = "*", default-features = false }
clap = { version = "4", features = ["derive"] }
console = "*"
indicatif = "*"
rayon = "1"
glob = "0.3"
