[package]
name = "two_phase_election"
version = "0.1.0"
edition = "2021"
publish = false

[dependencies]
sp-npos-elections = "*"
sp-arithmetic = "*"
