[package]
name = "savon"
version = "0.1.0"
edition = "2021"
publish = false

[dependencies]
case = "=1.0.0"
chrono = "=0.4.45"
proc-macro2 = "=1.0.107"
quote = "=1.0.47"
reqwest = { version = "=0.12.28", default-features = false }
serde-xml-rs = "=0.8.2"
xmltree = { version = "=0.10.3", features = ["attribute-order"] }
