[package]
name = "wachy"
version = "0.1.0"
edition = "2021"
publish = false

[dependencies]
fuzzy-matcher = "=0.3.7"
cpp_demangle = "=0.5.1"
object = "=0.40.0"
addr2line = "=0.27.1"
gimli = "=0.34.0"
memmap = "=0.7.0"
iced-x86 = "*"
cursive = "=0.21.1"
cursive_table_view = "=0.15.0"
clap = "=4.6.7"
libc = "=0.2.190"
