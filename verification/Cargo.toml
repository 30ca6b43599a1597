[package]
name = "runtime_client"
version = "0.1.0"
edition = "2021"
publish = false

[dependencies]
tonic = "*"
tokio = { version = "*", features = ["net", "rt"] }
tower = "*"
futures-util = "*"
prost = "*"
prost-types = "*"
bytes = "*"
hyper-util = "*"
anyhow = "*"
thiserror = "*"
sha2 = "=0.11.0"
deoxys = "*"
