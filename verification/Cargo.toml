[package]
name = "trivy_exp_dep"
version = "0.4.6"
edition = "2021"
publish = false

[dependencies]
clap = "3"
regex = "1"
serde_json = "1"
walkdir = "2"
