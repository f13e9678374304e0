[package]
name = "sieve_client"
version = "0.1.0"
edition = "2021"
publish = false

[dependencies]
base64 = "0.22"
rustls-pki-types = "1"
rustls = { version = "0.23", default-features = false, features = ["ring", "std", "tls12"] }
tokio = { version = "1", features = ["net", "io-util", "sync", "macros", "rt-multi-thread"] }
tokio-rustls = { version = "0.26", default-features = false, features = ["ring", "tls12"] }
webpki-roots = "0.26"
thiserror = "1"
clap = { version = "4", features = ["derive", "env"] }
dotenv = "0.15"

[dev-dependencies]
nom = "7"
