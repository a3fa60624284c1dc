[package]
name = "periph-core"
version = "0.1.0"
edition = "2021"
publish = false

[dependencies]
clap = { version = "=4.6.7", features = ["derive"] }
ctrlc = "=3.5.2"
glob = "=0.3.4"
hidapi = { version = "=2.6.7", default-features = false, features = ["linux-native-basic-udev"] }
serde = { version = "=1.0.229", features = ["derive"] }
serde_json = "=1.0.154"
serialport = { version = "=4.10.1", default-features = false }
