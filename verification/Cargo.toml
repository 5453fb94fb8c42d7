[package]
name = "module_definitions"
version = "0.1.0"
edition = "2021"
publish = false

[dependencies]
dupe = "=0.9.1"
ruff_python_ast = "=0.0.4"
ruff_text_size = "=0.0.4"
starlark_map = "=0.14.2"

[dev-dependencies]
get-size2 = "=0.10.0"
ruff_python_parser = "=0.0.4"
