[package]
name = "bundler"
version = "0.1.0"
edition = "2021"
publish = false

[dependencies]
prettyplease = { version = "=0.3.0", features = ["verbatim"] }
quote = "=1.0.47"
syn = { version = "=3.0.9", features = ["full", "visit-mut"] }
toml = "=1.1.8"
