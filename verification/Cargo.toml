[package]
name = "route_resolver"
version = "0.1.0"
edition = "2021"
publish = false

[dependencies]
route-recognizer = "0.3"
