[package]
name = "muso"
version = "0.1.0"
edition = "2021"
publish = false

[dependencies]
anyhow = "1"
clap = "2"
dirs = "3"
id3 = "0.5"
infer = "0.2"
lewton = "0.10"
log = "0.4"
metaflac = "0.2"
mp4ameta = "0.7"
notify = "4"
ogg = "0.8"
serde = { version = "1", features = ["derive"] }
shellexpand = "2"
toml = "0.5"
