[package]
name = "lapdev_kube"
version = "0.1.0"
edition = "2021"
publish = false

[dependencies]
anyhow = "=1.0.104"
axum = "=0.8.9"
bytes = "=1.12.1"
chrono = { version = "=0.4.45", features = ["serde"] }
clap = { version = "=4.6.7", features = ["derive", "env"] }
futures = "=0.3.34"
h2 = "=0.4.20"
http = "=1.5.0"
httparse = "=1.10.1"
hyper-util = { version = "=0.1.21", features = ["client-legacy", "http1", "tokio"] }
k8s-openapi = { version = "=0.25.0", features = ["v1_33"] }
kube = { version = "=1.1.0", features = ["client", "runtime", "rustls-tls"] }
libc = "=0.2.191"
pasetors = "=0.7.8"
quinn = "=0.11.12"
rand = "=0.9.5"
rcgen = "=0.14.10"
serde = { version = "=1.0.229", features = ["derive"] }
serde_json = "=1.0.154"
serde_yaml = "=0.9.34"
tarpc = { version = "=0.36.0", features = ["serde-transport", "serde-transport-bincode", "tokio1"] }
thiserror = "=2.0.21"
tokio = { version = "=1.54.1", features = ["full"] }
tokio-tungstenite = { version = "=0.26.2", features = ["rustls-tls-native-roots"] }
tokio-util = { version = "=0.7.20", features = ["codec", "io"] }
tracing = "=0.1.44"
tracing-journald = "0.3"
tracing-subscriber = { version = "=0.3.23", features = ["env-filter"] }
uuid = { version = "=1.29.0", features = ["serde", "v4"] }
