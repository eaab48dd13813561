[package]
name = "impulse_ring"
version = "0.1.0"
edition = "2021"
publish = false

[dependencies]
apache-avro = "0.22"
getrandom = "0.2"
libc = "0.2"
log = "0.4"
serde = { version = "1", features = ["derive"] }
sha2 = "0.10"
