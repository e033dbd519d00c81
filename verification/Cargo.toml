[package]
name = "ire"
version = "0.1.0"
edition = "2021"
publish = false

[dependencies]
byteorder = "=1.5.0"
data-encoding = "=2.11.1"
futures = "=0.1.31"
i2p_snow = "=0.5.1"
num-bigint = "=0.4.8"
num-traits = "=0.2.19"
rand = "=0.5.6"
sha2 = "=0.8.2"
signatory = { version = "=0.27.1", features = ["ed25519", "nistp256", "nistp384"] }
siphasher = "=1.0.4"
tokio-io = "=0.1.13"
