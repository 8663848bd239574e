[package]
name = "freeblock"
version = "0.1.0"
edition = "2021"
publish = false

[dependencies]
domain = "0.12"
etherparse = "*"
radix_trie = "*"
libc = "0.2"
tokio = { version = "1", features = ["rt-multi-thread", "net", "time", "sync", "macros", "io-util"] }
tokio-util = "0.7"
quinn = { version = "0.11", default-features = false, features = ["runtime-tokio", "rustls-ring"] }
rustls = { version = "0.23", default-features = false, features = ["ring", "std", "tls12"] }
webpki-roots = "*"
uniffi = "*"
