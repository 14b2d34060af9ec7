[package]
name = "automata"
version = "0.1.0"
edition = "2021"
publish = false

[dependencies]
linfa = "0.7"
linfa-trees = "0.7"
ndarray = "0.15"
rand = "0.8"
