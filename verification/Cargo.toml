[package]
name = "simple_p2p"
version = "0.1.0"
edition = "2021"
publish = false

[dependencies]
argh = "*"
chrono = "*"
nix = { version = "*", features = ["net"] }
socket2 = "*"
tun-tap = "*"

[dev-dependencies]
bincode = "1"
macaddr = { version = "1", features = ["serde_std"] }
serde = "1"
