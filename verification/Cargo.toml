[package]
name = "karma_keepers"
version = "0.1.0"
edition = "2021"
publish = false

[dependencies]
rustc-hash = "*"
static_aabb2d_index = "*"
