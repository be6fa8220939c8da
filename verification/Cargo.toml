[package]
name = "akiradb"
version = "0.1.0"
edition = "2021"
publish = false

[dependencies]
anyhow = "1"
arrayvec = "0.7"
arrow = { version = "*", default-features = false }
byteorder = "1"
fs2 = "0.4"
fst = "0.4"
lazy_static = "1"
regex = "1"
serde = { version = "1", features = ["derive"] }
serde_json = "1"
structopt = "0.3"
