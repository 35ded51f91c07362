[package]
name = "keystash"
version = "0.3.6"
edition = "2021"
publish = false

[dependencies]
argon2 = "0.5"
arboard = "3"
chacha20poly1305 = "0.10"
chrono = "0.4"
crossterm = "0.28"
csv = "1"
hkdf = "0.12"
hmac = "0.12"
rand = "0.9"
ratatui = "0.29"
rpassword = "7"
rusqlite = { version = "0.31", features = ["bundled-sqlcipher-vendored-openssl"] }
serde = { version = "1", features = ["derive"] }
serde_json = "1"
sha2 = "0.10"
ureq = { version = "2", features = ["native-tls"] }
zeroize = "1"
