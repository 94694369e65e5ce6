[package]
name = "quantum_emulator"
version = "0.1.0"
edition = "2021"
publish = false

[dependencies]
num-complex = "0.4"
rocket = { version = "0.5", features = ["json"] }
rocket_cors = "0.6"
serde = { version = "1", features = ["derive"] }
serde_json = "1"

[dev-dependencies]
nalgebra = "0.33"
