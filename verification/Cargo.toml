[package]
name = "raytracer"
version = "0.1.0"
edition = "2021"
publish = false

[dependencies]
rand = "0.7"
rand_distr = "0.2"
nalgebra = "0.21"
noise = { version = "0.6", default-features = false }
image = "0.23"
png = "0.16"
tobj = "1"
clap = "2"
indicatif = "0.14"
threadpool = "1"
itertools = "0.9"
maplit = "1"
lazy_static = "1"
env_logger = "0.7"
log = "0.4"
