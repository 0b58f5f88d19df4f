[package]
name = "striker"
version = "0.1.0"
edition = "2021"
publish = false

[dependencies]
bytesize = "*"
humantime = "*"
ms-converter = "*"
serde = { version = "*", features = ["derive"] }
reqwest = { version = "*", default-features = false, features = ["blocking", "json"] }
