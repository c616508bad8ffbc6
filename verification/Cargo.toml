[package]
name = "network_changed"
version = "0.1.0"
edition = "2021"
publish = false

[dependencies]
cocoon = "*"
mid = "*"
directories = "*"
netdev = "*"
net-route = "*"
public-ip-address = "*"
tokio = { version = "*", features = ["rt"] }
