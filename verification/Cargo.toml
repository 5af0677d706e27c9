[package]
name = "stl_blueprint"
version = "0.1.0"
edition = "2021"
publish = false

[dependencies]
itertools = "0.10"
nalgebra = "0.33"
parry3d = "0.17"
stl_io = "0.7"
rayon = "1"
float-ord = "0.3"
approx = "0.5"
druid = "0.7"
