[package]
name = "melbi"
version = "0.1.0"
edition = "2021"
publish = false

[dependencies]
smallvec = "=1.16.4"
hashbrown = "=0.15.5"

[dev-dependencies]
bumpalo = "3"
