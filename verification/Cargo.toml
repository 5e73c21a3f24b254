[package]
name = "lunar_ecs"
version = "0.1.0"
edition = "2021"
publish = false

[dependencies]
rand = "=0.8.8"
vec_key_value_pair = "=0.2.0"
bytemuck = "=1.25.2"
lunar-png = "*"
chrono = "0.4"
directories = "*"
