[package]
name = "plait"
version = "0.1.0"
edition = "2021"
publish = false

[dependencies]
convert_case = "=0.12.0"
hescape = "=0.1.0"
indexmap = "=2.14.2"
itoa = "=1.0.18"
percent-encoding = "=2.3.2"
proc-macro2 = "=1.0.107"
quote = "=1.0.47"
ryu = "=1.0.23"
syn = { version = "=2.0.119", features = ["full", "visit-mut"] }
thiserror = "=2.0.21"
