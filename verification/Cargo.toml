[package]
name = "fixed_math"
version = "0.1.0"
edition = "2021"
publish = false

[dependencies]
anchor-lang = "*"
bytemuck = { version = "=1.25.2", features = ["derive"] }
num-traits = "=0.2.19"
static_assertions = "=1.1.0"
thiserror = "=1.0.69"
uint = "=0.9.5"
