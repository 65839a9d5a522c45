[package]
name = "wren"
version = "0.2.0"
edition = "2021"
publish = false

[dependencies]
flacenc = "*"
earshot = "*"
rubato = "*"
audioadapter-buffers = "*"
hound = "3"
serde = { version = "1", features = ["derive"] }
serde_json = "1"
dirs = "*"
sha2 = "0.10"
log = "0.4"
thiserror = "*"
reqwest = { version = "0.12", default-features = false, features = ["blocking", "multipart", "json", "rustls-tls"] }
arboard = "3"
enigo = "*"
rodio = "*"

[dev-dependencies]
