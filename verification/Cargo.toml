[package]
name = "valser"
version = "0.1.0"
edition = "2021"
publish = false

[dependencies]
rand = "0.9"
serde = { version = "1", features = ["derive"] }
serde_json = "1"
redb = "3"
lofty = "0.22"
walkdir = "2"
crossbeam-channel = "0.5"
dirs = "6"
smol = "2"
futures = "0.3"
mpris-server = "*"
symphonia = "0.5"
symphonia-adapter-libopus = "*"
rodio = "*"
