[package]
name = "mwtest"
version = "0.1.0"
edition = "2021"
publish = false

[dependencies]
uuid = { version = "1", features = ["v4"] }
relative-path = "1"
itertools = "0.10"
htmlescape = "0.3"
regex = "1"
num_cpus = "1"
serde = { version = "1", features = ["derive"] }
serde_json = "1"
serde-xml-rs = "0.6"
tokio = { version = "1", features = ["rt-multi-thread", "process", "io-util", "time", "macros", "net", "sync"] }
futures = "0.3"
glob = "0.3"
structopt = "0.3"
simple-eyre = "0.3"
remove_dir_all = "0.8"
term_size = "0.3"
