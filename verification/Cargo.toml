[package]
name = "betree"
version = "0.1.0"
edition = "2021"
publish = false

[dependencies]
async-trait = "=0.1.92"
dashmap = "=4.0.2"
futures = "=0.3.34"
indexmap = "=1.9.3"
log = "0.4"
parking_lot = "=0.11.2"
quickcheck = { version = "=0.9.2", default-features = false }
rand = "=0.7.3"
rand_xorshift = "=0.2.0"
tokio = { version = "=1.54.1", features = ["rt-multi-thread"] }
