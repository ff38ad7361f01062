[package]
name = "closm_probe"
version = "0.1.0"
edition = "2021"
publish = false

[dependencies]
crossbeam-channel = "0.5"
directories = "5"
jwalk = "0.8"
redb = "3"
