[package]
name = "passport_lib"
version = "0.1.0"
edition = "2021"
publish = false

[dependencies]
alloy-sol-types = "0.8"
clap = { version = "4", features = ["derive"] }
dotenv = "0.15"
sp1-zkvm = "4"
