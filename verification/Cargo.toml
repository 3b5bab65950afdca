[package]
name = "dense_kernel"
version = "0.1.0"
edition = "2021"
publish = false

[dependencies]
rand = "0.9"
nalgebra = "0.33"
plotters = { version = "0.3", default-features = false, features = ["svg_backend", "line_series", "point_series"] }
