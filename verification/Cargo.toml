[package]
name = "mobiledoc"
version = "0.1.0"
edition = "2021"
publish = false

[dependencies]
serde = { version = "*", features = ["derive"] }
serde_json = { version = "*", features = ["preserve_order", "arbitrary_precision"] }
serde_repr = "*"
serde_tuple = "*"
