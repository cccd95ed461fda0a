[package]
name = "ftp_sync"
version = "0.1.0"
edition = "2021"
publish = false

[dependencies]
chrono = "0.4"
crossterm = "0.27"
curl = "0.4"
diesel = { version = "1.4", features = ["mysql"] }
dotenv = "0.15"
ftp = "3.0"
lazy_static = "1.4"
tokio = { version = "1", features = ["rt-multi-thread", "macros"] }
