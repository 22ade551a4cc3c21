[package]
name = "databend_query"
version = "0.1.0"
edition = "2021"
publish = false

[dependencies]
arrow2 = { version = "0.16", features = ["io_parquet", "io_parquet_compression"] }
parquet2 = { version = "0.17", default-features = false, features = ["snappy", "gzip", "lz4", "zstd", "brotli"] }
bumpalo = "3"
async-trait = "0.1"
opendal = { version = "0.27", default-features = false }
xorfilter-rs = "0.5"
