[package]
name = "g2mirror"
version = "0.1.0"
edition = "2021"
publish = false

[dependencies]
anyhow = "1"
base64 = "0.22"
futures-util = "0.3"
getrandom = "0.3"
pty-process = { version = "0.5", features = ["async"] }
regex = "1"
rustix = { version = "1", features = ["process", "stdio", "termios"] }
rustls = { version = "0.23", default-features = false, features = ["ring", "std"] }
serde = { version = "1", features = ["derive"] }
serde_json = "1"
sha2 = "0.10"
tokio = { version = "1", features = ["fs", "io-std", "io-util", "macros", "net", "process", "rt", "signal", "sync", "time"] }
tokio-tungstenite = { version = "0.26", features = ["rustls-tls-webpki-roots"] }
vt100 = "0.16"
