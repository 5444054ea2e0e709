[package]
name = "sovright_p2p_ingress"
version = "0.2.0"
edition = "2021"
publish = false

[dependencies]
hex = "=0.4.3"
serde_json = "=1.0.154"
sha2 = "=0.10.9"
tokio = { version = "1", features = ["io-util", "net", "rt", "sync", "time"] }
tracing = "0.1"
zcash_primitives = "=0.29.0"
zcash_protocol = "0.10"
