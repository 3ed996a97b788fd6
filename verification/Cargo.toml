[package]
name = "zeroin"
version = "0.1.0"
edition = "2021"
publish = false

[dependencies]
windows = { version = "=0.58.0", features = ["Foundation_Numerics", "Win32_Graphics_Direct2D", "Win32_Graphics_Direct2D_Common"] }
