[package]
name = "zcash_sidechain"
version = "0.1.0"
edition = "2021"
publish = false

[dependencies]
bincode = "=1.3.3"
blake2 = "=0.10.6"
bs58 = { version = "=0.5.1", features = ["check"] }
clap = { version = "=4.6.7", features = ["derive"] }
hex = "=0.4.3"
incrementalmerkletree = { version = "=0.9.0", features = ["legacy-api"] }
miette = "=7.6.0"
nonempty = "=0.11.0"
orchard = "=0.16.0"
rand = "=0.10.3"
rusqlite = { version = "=0.40.2", features = ["bundled"] }
rusqlite_migration = "=2.6.0"
serde = { version = "=1.0.229", features = ["derive"] }
serde_json = "=1.0.154"
thiserror = "=2.0.21"
time = "=0.3.55"
tiny-bip39 = "=2.0.0"
zip32 = "=0.3.0"
