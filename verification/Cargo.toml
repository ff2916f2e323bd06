[package]
name = "depscan"
version = "0.1.0"
edition = "2021"
publish = false

[dependencies]
sha2 = "*"
regex = "*"
yarn-lock-parser = "*"
serde = { version = "*", features = ["derive"] }
serde_json = "*"
clap = { version = "*", features = ["derive"] }
colored = "*"
reqwest = { version = "*", default-features = false, features = ["blocking", "json", "rustls-tls"] }
toml = "*"
urlencoding = "*"
base64 = "*"
flate2 = "*"
tar = "*"
tempfile = "*"
zip = { version = "*", default-features = false, features = ["deflate"] }
