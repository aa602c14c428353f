[package]
name = "block-entity-finder"
version = "0.1.0"
edition = "2021"
publish = false

[dependencies]
byteorder = "=1.5.0"
clap = "=2.34.0"
flate2 = "=1.1.10"
hematite-nbt = "=0.5.2"
