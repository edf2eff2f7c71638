[package]
name = "beet_rsx"
version = "0.1.0"
edition = "2021"
publish = false

[dependencies]
proc-macro2 = { version = "=1.0.107", features = ["span-locations"] }
syn = { version = "=3.0.6", features = ["full"] }
quote = "=1.0.47"
rapidhash = "=4.5.1"
rstml = { version = "=0.13.1", features = ["rawtext-stable-hack"] }
