[package]
name = "ldconvert"
version = "0.1.0"
edition = "2021"
publish = false

[dependencies]
clap = { version = "4", features = ["derive"] }
clap-markdown = "0.1"
image = { version = "0.25", default-features = false, features = ["png"] }
palette = "0.7"
rand = { version = "0.8", features = ["small_rng"] }
savefile = "0.17"
savefile-derive = "0.17"
serde = { version = "1", features = ["derive"] }
