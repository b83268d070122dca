[package]
name = "vortex_core"
version = "0.1.0"
edition = "2021"
publish = false

[dependencies]
aes-gcm = "0.10"
async-fs = "2"
async-trait = "0.1"
futures = "0.3"
getrandom = "0.3"
hashbrown = "0.16"
kanal = "0.1"
num-traits = "0.2"
object_store = { version = "0.12", default-features = false }
onpair = "*"
parking_lot = "0.12"
rustc-hash = "2"
static_assertions = "1"
