[package]
name = "ggrs"
version = "0.1.0"
edition = "2021"
publish = false

[dependencies]
bitfield-rle = "*"
bytemuck = { version = "1", features = ["extern_crate_alloc"] }
instant = "0.1"
serde = { version = "1", features = ["derive"] }

[dev-dependencies]
bincode = "1"
