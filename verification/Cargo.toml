[package]
name = "vulkano_text"
version = "0.1.0"
edition = "2021"
publish = false

[dependencies]
vulkano = "=0.33.1"
rusttype = "=0.8.3"
bytemuck = { version = "1", features = ["derive"] }
