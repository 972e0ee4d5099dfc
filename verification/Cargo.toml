[package]
name = "messauto"
version = "0.1.0"
edition = "2021"
publish = false

[dependencies]
sys-locale = "*"
emlx = "*"
mail-parser = "*"
serde = { version = "*", features = ["derive"] }
serde_json = "*"
home = "*"
notify = "*"
