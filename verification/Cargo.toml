[package]
name = "pathtracer"
version = "0.1.0"
edition = "2021"
publish = false

[dependencies]
dotenv = "0.15"
indicatif = "0.17"
rand = "0.9"
rayon = "1"
