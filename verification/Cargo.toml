[package]
name = "lux_lib"
version = "0.1.0"
edition = "2021"
publish = false

[dependencies]
semver = "1"
html-escape = "0.2"
sha2 = "0.10"
hex = "0.4"
ssri = "9"
itertools = "0.14"
url = "2"
httpdate = "1"
zip = { version = "2", default-features = false, features = ["deflate"] }
serde_json = "1"
path-slash = "0.2"
pathdiff = "0.2"
toml_edit = "0.22"
mlua = { version = "0.10", features = ["lua54", "vendored", "serialize"] }
serde = { version = "1", features = ["derive"] }
tokio = { version = "1", features = ["rt-multi-thread", "macros", "fs", "process", "sync", "io-util"] }
reqwest = { version = "0.12", default-features = false, features = ["rustls-tls"] }
clap = { version = "4", features = ["derive"] }
eyre = "0.6"
walkdir = "2"
tempdir = "0.3"
