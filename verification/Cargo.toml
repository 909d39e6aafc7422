[package]
name = "phaserack"
version = "0.1.0"
edition = "2021"
publish = false

[dependencies]
signalsmith-stretch = "=0.1.3"
