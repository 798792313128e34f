[package]
name = "demucs_native"
version = "0.1.0"
edition = "2021"
publish = false

[dependencies]
anyhow = "1"
cudarc = { version = "0.19", default-features = false, features = ["std", "driver", "cublas", "nvrtc", "f16", "dynamic-loading", "cuda-12080"] }
gemm = "0.18"
half = "2"
hound = "3"
libm = "0.2"
log = "0.4"
rayon = "1"
realfft = "3"
safetensors = "0.4"
thiserror = "2"
