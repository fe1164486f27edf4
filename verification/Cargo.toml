[package]
name = "ncm_tui"
version = "0.1.3"
edition = "2021"
publish = false

[dependencies]
aes = "=0.8.4"
base64 = "=0.22.1"
cbc = { version = "=0.1.2", features = ["alloc"] }
cipher = { version = "=0.4.4", features = ["alloc", "block-padding"] }
crossterm = "=0.28.1"
ecb = { version = "=0.1.2", features = ["alloc"] }
futures-util = "=0.3.34"
hex = "=0.4.3"
image = { version = "=0.25.10", default-features = false, features = ["jpeg", "png"] }
lofty = "=0.24.0"
md-5 = "=0.10.6"
num-bigint = "=0.4.8"
qrcode = { version = "=0.14.1", default-features = false }
rand = "=0.8.8"
ratatui = "=0.29.0"
ratatui-image = { version = "=8.1.1", default-features = false, features = ["crossterm"] }
reqwest = { version = "=0.12.28", default-features = false, features = ["cookies", "rustls-tls", "stream"] }
rodio = { version = "=0.21.1", default-features = false }
rusqlite = { version = "=0.32.1", features = ["bundled"] }
serde = { version = "=1.0.229", features = ["derive"] }
serde_json = "=1.0.154"
stream-download = { version = "=0.24.5", default-features = false, features = ["reqwest", "temp-storage"] }
symphonia = { version = "=0.5.5", features = ["all"] }
thiserror = "=2.0.21"
tokio = { version = "=1.54.1", features = ["full"] }
toml = "=0.8.23"
url = "=2.5.8"
