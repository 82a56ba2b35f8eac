[package]
name = "jpre"
version = "0.1.0"
edition = "2021"
publish = false

[dependencies]
sha2 = "*"
clap = { version = "*", features = ["derive"] }
serde = { version = "*", features = ["derive"] }
toml = "*"
toml_edit = "*"
directories = "*"
ureq = { version = "*", default-features = false, features = ["json"] }
flate2 = "*"
tar = "*"
zip = { version = "*", default-features = false, features = ["deflate"] }
tempfile = "*"
