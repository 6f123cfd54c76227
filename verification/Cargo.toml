[package]
name = "happyview"
version = "0.1.0"
edition = "2021"
publish = false

[dependencies]
atrium-api = { version = "=0.26.0", default-features = false, features = ["agent"] }
atrium-xrpc = "=0.12.4"
axum = "=0.8.9"
base64 = "=0.23.1"
bytes = "=1.12.1"
chrono = "=0.4.45"
ciborium = "=0.2.2"
cid = "=0.11.3"
hkdf = "=0.13.0"
hmac = "=0.13.0"
http-body-util = "=0.1.5"
k256 = "=0.14.0"
mlua = { version = "=0.12.2", features = ["lua54", "vendored", "async", "send", "serde"] }
multibase = "=0.9.3"
p256 = "=0.14.0"
rand = "=0.10.3"
reqwest = { version = "=0.13.5", default-features = false, features = ["json"] }
serde = { version = "=1.0.229", features = ["derive"] }
serde_json = { version = "=1.0.154", features = ["preserve_order"] }
sha2 = "=0.11.1"
sqlx = { version = "=0.9.0", default-features = false, features = ["any", "runtime-tokio"] }
tokio = { version = "=1.54.1", features = ["fs", "macros", "rt", "sync", "time"] }
tower = { version = "=0.5.3", features = ["util"] }
tower-http = { version = "=0.7.1", features = ["fs", "trace"] }
tracing = "=0.1.44"
urlencoding = "=2.1.3"
uuid = { version = "=1.29.0", features = ["v4"] }
