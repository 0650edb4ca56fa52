[package]
name = "wamp_async"
version = "0.1.0"
edition = "2021"
publish = false

[dependencies]
hex = "=0.4.3"
nacl = "=0.5.3"
rand = "=0.8.8"
tokio = { version = "=1.53.2", features = ["full"] }
url = "=2.5.8"

[dev-dependencies]
serde_json = "=1.0.151"
serde_cbor = "=0.11.2"
rmp-serde = "=1.3.1"
