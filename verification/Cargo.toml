[package]
name = "smik-jar-lib"
version = "0.1.0"
edition = "2021"
publish = false

[dependencies]
zip = { version = "*", default-features = false, features = ["deflate"] }
java-properties = "*"
log = "*"
clap = { version = "*", features = ["derive"] }
env_logger = { version = "*", default-features = false }
semver = "*"
