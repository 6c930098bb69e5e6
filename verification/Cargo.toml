[package]
name = "rediff"
version = "0.1.0"
edition = "2021"
publish = false

[dependencies]
facet = "*"
facet-core = "*"
facet-reflect = "*"
facet-pretty = "*"
indextree = "*"
owo-colors = "*"
palette = "*"
unicode-width = "*"
confusables = "*"
