[package]
name = "dr_analyzer"
version = "0.1.0"
edition = "2021"
publish = false

[dependencies]
walkdir = "2"
rayon = "1"
async-channel = "2"
