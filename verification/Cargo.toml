[package]
name = "supermagma"
version = "0.1.0"
edition = "2021"
publish = false

[dependencies]
nano-leb128 = "=0.1.0"
serde_json = { version = "=1.0.154", features = ["float_roundtrip"] }
color-eyre = "=0.5.11"
native-dialog = "=0.4.4"
