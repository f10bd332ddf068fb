[package]
name = "tms"
version = "0.1.0"
edition = "2021"
publish = false

[dependencies]
clap = { version = "*", features = ["derive"] }
clap_complete = { version = "*", features = ["unstable-dynamic"] }
config = { version = "*", default-features = false, features = ["toml"] }
dirs = "*"
error-stack = "*"
gix = { version = "*", default-features = false, features = ["sha1"] }
serde = { version = "*", features = ["derive"] }
shellexpand = "*"
