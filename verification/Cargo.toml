[package]
name = "omango"
version = "0.2.0"
edition = "2021"
publish = false

[dependencies]
parking_lot = "*"
omango-futex = "*"
omango-util = "*"
likely_stable = "*"
