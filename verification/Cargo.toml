[package]
name = "bob_lib"
version = "0.1.0"
edition = "2021"
publish = false

[dependencies]
pathfinding = "4"
rand = "0.8"
rayon = "1"
