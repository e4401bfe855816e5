[package]
name = "concurrent_arena"
version = "0.1.0"
edition = "2021"
publish = false

[dependencies]
arc-swap = "1"
array-init = "2"
const_fn_assert = "0.1"
parking_lot = "0.12"
triomphe = { version = "0.1", features = ["arc-swap"] }

[dev-dependencies]
bitvec = "1"
rayon = "1"
