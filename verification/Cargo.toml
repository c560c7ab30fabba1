[package]
name = "aquarium"
version = "0.1.0"
edition = "2021"
publish = false

[dependencies]
bstr = "1"
disjoint-sets = "*"
regex = "1"
z3 = "0.12"
