[package]
name = "solver"
version = "0.1.0"
edition = "2021"
publish = false

[dependencies]
bytemuck = { version = "1", default-features = false, features = ["extern_crate_alloc"] }
