[package]
name = "protofish"
version = "0.5.2"
edition = "2021"
publish = false

[dependencies]
bytes = "1"
pest = "2"
pest_derive = "2"
snafu = "0.6"
