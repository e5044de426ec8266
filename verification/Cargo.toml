[package]
name = "trywin"
version = "0.1.0"
edition = "2021"
publish = false

[dependencies]
png = "*"
bytemuck = "*"
syn = { version = "2", features = ["full", "extra-traits"] }
proc-macro2 = { version = "1", features = ["span-locations"] }
quote = "1"
serde = { version = "1", features = ["derive"] }
serde_json = "1"
