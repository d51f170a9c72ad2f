[package]
name = "word_vector_db"
version = "0.1.0"
edition = "2021"
publish = false

[dependencies]
clap = "*"
diesel = { version = "*", features = ["sqlite"] }
libsqlite3-sys = { version = "*", features = ["bundled"] }
indicatif = "*"

[dev-dependencies]
rand = "0.8"
