[package]
name = "fonttest-swash-harness"
version = "0.1.0"
edition = "2021"
publish = false

[dependencies]
lexopt = "*"
quick-xml = "*"
swash = "0.2.1"
ttf-parser = "*"
unicode-bidi = "*"
