[package]
name = "atlas_preemptive"
version = "0.1.0"
edition = "2021"
publish = false

[dependencies]
rayon = "=1.12.0"
thiserror = "=2.0.21"
tracing = "=0.1.44"
