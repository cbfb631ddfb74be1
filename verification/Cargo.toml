[package]
name = "dwarf_varloc"
version = "0.1.0"
edition = "2021"
publish = false

[dependencies]
gimli = "0.22"
object = { version = "0.20", features = ["read", "write"] }
capstone = "0.7"
memmap = "0.7"
env_logger = "0.7"
