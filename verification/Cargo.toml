[package]
name = "alife_sim"
version = "0.1.0"
edition = "2021"
publish = false

[dependencies]
rand = "0.9"
rand_distr = "0.5"
ndarray = "0.16"
ratatui = "0.29"
crossterm = "0.28"
