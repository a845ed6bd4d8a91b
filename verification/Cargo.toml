[package]
name = "brainfuck"
version = "0.1.0"
edition = "2021"
publish = false

[dependencies]
console = "*"
llvm-sys = { version = "*", features = ["no-llvm-linking", "disable-alltargets-init"] }
smol_str = "*"
thousands = "*"
unicode-segmentation = "*"
