[package]
name = "fuzzy_dictionary"
version = "0.1.0"
edition = "2021"
publish = false

[dependencies]
fst = { version = "0.4.7", features = ["levenshtein"] }
hashbrown = "0.14"
