[package]
name = "roci-storage"
version = "0.1.0"
edition = "2021"
publish = false

[dependencies]
bytes = "1"
crc32c = "0.6"
cuckoofilter = "0.5"
futures = "0.3"
getrandom = "0.3"
hex = "0.4"
hmac = "0.12"
lru = "0.12"
memmap2 = "0.9"
redb = "3"
rkyv = "0.8"
rustix = { version = "1", features = ["fs"] }
serde = { version = "1", features = ["derive"] }
serde_json = "1"
sha2 = "0.10"
thiserror = "2"
tokio = { version = "1", features = ["fs", "io-util", "macros", "rt-multi-thread", "sync", "time"] }
toml = "0.8"
tracing = "0.1"
