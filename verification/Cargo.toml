[package]
name = "music_download"
version = "0.1.0"
edition = "2021"
publish = false

[dependencies]
ansi_term = "0.12"
id3 = "*"
image = { version = "*", default-features = false, features = ["png", "jpeg"] }
indexmap = "2"
metaflac = "*"
reqwest = { version = "0.12", default-features = false, features = ["json"] }
serde = { version = "1", features = ["derive"] }
serde_json = "1"
tokio = { version = "1", features = ["macros", "rt-multi-thread"] }
