[package]
name = "rotvoxel"
version = "0.1.0"
edition = "2021"
publish = false

[dependencies]
dot_vox = "*"
thiserror = "*"
multiversion = "*"
