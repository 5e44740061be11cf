[package]
name = "pandora_core"
version = "0.1.0"
edition = "2021"
publish = false

[dependencies]
slab = "0.4"
zbus_xml = "5"
zvariant = "5"
lexical-sort = "0.3"
num-traits = "0.2"
serde = { version = "1", features = ["derive"] }
serde_json = "1"
parking_lot = "0.12"
rustc-hash = "2"
uuid = { version = "1", features = ["v4"] }
