[package]
name = "gsol_minter"
version = "0.1.0"
edition = "2021"
publish = false

[dependencies]
base64 = "=0.22.1"
candid = "=0.10.37"
hex = "=0.4.3"
ic-cdk = "=0.17.2"
ic-cdk-macros = "=0.17.2"
ic-cdk-timers = "=0.11.1"
icrc-ledger-types = "=0.2.0"
libsecp256k1 = "=0.7.2"
num-bigint = "=0.4.8"
serde = { version = "=1.0.229", features = ["derive"] }
serde_cbor = "=0.11.2"
serde_json = "=1.0.151"
sha3 = "=0.12.0"
