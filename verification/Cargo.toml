[package]
name = "ore_deploy"
version = "0.1.0"
edition = "2021"
publish = false

[dependencies]
pinocchio = "=0.9.3"
pinocchio-log = "=0.5.1"

[dev-dependencies]
bytemuck = "=1.25.2"
