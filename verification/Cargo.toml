[package]
name = "haiku_render"
version = "0.1.0"
edition = "2021"
publish = false

[dependencies]
ab_glyph = "0.2"
axum = "0.7"
dotenv = "0.15"
image = "0.25"
imageproc = "0.25"
serde = { version = "1", features = ["derive"] }
tokio = { version = "1", features = ["macros", "rt-multi-thread", "net"] }
tower-http = { version = "0.5", features = ["fs"] }
walkdir = "2"
