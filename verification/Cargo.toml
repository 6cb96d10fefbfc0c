[package]
name = "lmc"
version = "0.2.0"
edition = "2021"
publish = false

[dependencies]
fxhash = "0.2"
log = "0.4"
parking_lot = "0.12"
rustls = { version = "0.20", features = ["dangerous_configuration"] }
rustls-native-certs = "0.6"
rustls-pemfile = "1"
tokio = { version = "1", features = ["net", "rt", "sync", "time", "macros"] }
webpki = "0.22"
