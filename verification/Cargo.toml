[package]
name = "leaf_core"
version = "0.1.0"
edition = "2021"
publish = false

[dependencies]
anyhow = "1"
syntect = { version = "=5.3.0", default-features = false, features = ["parsing", "regex-fancy"] }
twig-djot = "7"
twig-doc = { version = "7", default-features = false }
twig-html = "7"
twig-markdown = "7"
twig-xml = "7"
two-face = { version = "=0.5.2", default-features = false, features = ["syntect-fancy"] }
unicode-segmentation = "=1.13.3"
unicode-width = "=0.2.3"
