[package]
name = "infratk"
version = "0.1.0"
edition = "2021"
publish = false

[dependencies]
anyhow = "1"
arboard = { version = "3", default-features = false }
camino = "1"
clap = { version = "4", features = ["derive"] }
fs-err = "2"
git_cmd = "*"
home = "0.5"
ignore = "0.4"
inquire = "0.7"
petgraph = "0.6"
regex = "1"
reqwest = { version = "0.12", default-features = false, features = ["json", "rustls-tls"] }
secrecy = "0.8"
semver = "1"
serde = { version = "1", features = ["derive"] }
tokio = { version = "1", features = ["macros", "rt-multi-thread"] }
toml = "0.8"
tracing = "0.1"
