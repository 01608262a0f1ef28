[package]
name = "blobstore"
version = "0.1.0"
edition = "2021"
publish = false

[dependencies]
async-trait = "=0.1.92"
futures = "=0.3.34"
mongodb = "=2.8.2"
mongodb-gridfs = "=0.2.7"
tokio = { version = "=1.53.2", features = ["fs", "io-util", "rt"] }
