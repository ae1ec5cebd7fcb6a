[package]
name = "asset_bundler"
version = "0.1.0"
edition = "2021"
publish = false

[dependencies]
dirs = "3"
glob = "0.3"
image = { version = "=0.24.9", default-features = false, features = ["png"] }
itertools = "0.10"
nfd2 = "0.3"
pathdiff = "0.2"
rayon = "1"
serde = { version = "1", features = ["derive"] }
tar = "=0.4.46"
tempfile = "3"
thiserror = "1"
zip = { version = "0.6", default-features = false, features = ["deflate"] }
