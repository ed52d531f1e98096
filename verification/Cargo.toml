[package]
name = "speck_ex"
version = "0.1.0"
edition = "2021"
publish = false

[dependencies]
poly1305 = "*"
rustler = "*"

[dev-dependencies]
speck-cipher = "*"
cipher = "*"
ctr = "*"
