[package]
name = "neuroblasters"
version = "0.1.0"
edition = "2021"
publish = false

[dependencies]
bincode = { version = "2", features = ["serde"] }
glam = { version = "0.30", features = ["serde"] }
rand = "0.9"
renet = "1"
renet_netcode = "1"
serde = { version = "1", features = ["derive"] }
macroquad = "0.4"
thiserror = "2"
strum = "0.27"
strum_macros = "0.27"
once_cell = "1"
futures = "0.3"
image = { version = "0.25", default-features = false, features = ["png"] }
