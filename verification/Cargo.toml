[package]
name = "mdtranslation"
version = "0.1.0"
edition = "2021"
publish = false

[dependencies]
pulldown-cmark = { version = "0.8", default-features = false }
pulldown-cmark-to-cmark = "6"
structopt = "0.3"
thiserror = "1"
unicode-segmentation = "1"
