[package]
name = "investments"
version = "0.1.0"
edition = "2021"
publish = false

[dependencies]
chrono = "0.4"
diesel = { version = "*", default-features = false, features = ["sqlite", "chrono"] }
lazy_static = "1"
log = "0.4"
num-traits = "0.2"
regex = "1"
reqwest = { version = "*", default-features = false, features = ["blocking"] }
rust_decimal = "1"
serde = { version = "1", features = ["derive"] }
serde-xml-rs = "*"
serde_yaml = "*"
shellexpand = "*"
