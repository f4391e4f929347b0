[package]
name = "sudoku_sat"
version = "0.1.0"
edition = "2021"
publish = false

[dependencies]
rsat = "=0.1.12"
solhop-types = "=0.1.0"
