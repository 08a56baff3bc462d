[package]
name = "percas"
version = "0.1.0"
edition = "2021"
publish = false

[dependencies]
mur3 = "*"
rand = "*"
urlencoding = "*"
tokio = { version = "*", features = ["full"] }
poem = "*"
reqwest = { version = "*", default-features = false, features = ["json"] }
serde = { version = "*", features = ["derive"] }
serde_json = "*"
jiff = { version = "*", features = ["serde"] }
uuid = { version = "*", features = ["v7", "serde"] }
foyer = "*"
mea = "*"
backon = "*"
log = "*"
clap = { version = "*", features = ["derive"] }
toml = "*"
ctrlc = "*"
local-ip-address = "*"
