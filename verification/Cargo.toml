[package]
name = "morning"
version = "0.1.0"
edition = "2021"
publish = false

[dependencies]
clap = "2.33"
colored = "1.9"
nom = "5.1"
once_cell = "1"
