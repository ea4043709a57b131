[package]
name = "poison_swamp_level"
version = "0.1.0"
edition = "2021"
publish = false

[dependencies]
aho-corasick = "1"
anstyle = "1"
env_logger = { version = "0.11", features = ["kv"] }
http = "1"
hyper = { version = "1", features = ["server", "http1"] }
hyper-util = { version = "0.1", features = ["tokio", "server", "server-graceful", "http1"] }
kdl = "6"
libc = "0.2"
log = { version = "0.4", features = ["kv", "std"] }
maxminddb = "*"
procfs = "*"
rand = "*"
rand_seeder = "*"
serde = "1"
serde_json = "1"
tempfile = "3"
tokio = { version = "1", features = ["rt", "net", "macros", "signal", "sync", "time"] }
upon = "*"
