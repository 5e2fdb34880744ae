[package]
name = "etr"
version = "0.1.0"
edition = "2021"
publish = false

[dependencies]
aes-gcm = "0.10"
bincode = "1"
chacha20poly1305 = "0.10"
clap = { version = "4", features = ["derive"] }
clap_complete = "4"
clap_complete_nushell = "4"
crossterm = "*"
dirs = "*"
hkdf = "0.12"
libc = "0.2"
ml-kem = "0.2"
nix = { version = "0.30", features = ["process", "fs"] }
portable-pty = "*"
prost = "0.13"
quinn = "0.11"
rand = "0.9"
rand_core = { version = "0.6", features = ["getrandom"] }
rcgen = "0.14"
rustls = { version = "0.23", default-features = false, features = ["ring", "std"] }
serde = { version = "1", features = ["derive"] }
sha2 = "0.10"
sha3 = "0.10"
tokio = { version = "1", features = ["full"] }
toml = "*"
x25519-dalek = { version = "2", features = ["static_secrets"] }
