[package]
name = "spmg"
version = "0.1.0"
edition = "2021"
publish = false

[dependencies]
configparser = "3"
rand = "0.8"
cursive = "*"
cursive_table_view = "*"
cursive_tree_view = "*"
dirs = "*"
