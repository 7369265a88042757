[package]
name = "carrier"
version = "0.1.0"
edition = "2021"
publish = false

[dependencies]
clap = "2"
confy = "0.4"
serde = { version = "1", features = ["derive"] }
serde_derive = "1"
text_io = "0.1"
libc = "0.2"
