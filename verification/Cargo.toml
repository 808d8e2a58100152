[package]
name = "holo_hosting"
version = "0.1.0"
edition = "2021"
publish = false

[dependencies]
boolinator = "=2.4.0"
hdk = "=0.5.6"
serde = { version = "1", features = ["derive"] }
