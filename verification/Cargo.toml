[package]
name = "circuit_info"
version = "0.1.0"
edition = "2021"
publish = false

[dependencies]
acvm = "=0.44.0"
clap = { version = "=4.6.7", features = ["derive"] }
prettytable-rs = "=0.10.0"
rayon = "=1.12.0"
serde = { version = "=1.0.229", features = ["derive"] }
serde_json = { version = "=1.0.154", features = ["preserve_order"] }

[dev-dependencies]
codespan-reporting = "0.11"
