[package]
name = "dirdocs"
version = "0.1.0"
edition = "2021"
publish = false

[dependencies]
blake3 = { version = "=1.8.7", features = ["pure"] }
chrono = "=0.4.45"
handlebars = "=6.4.4"
humansize = "=2.1.3"
mime_guess = "=2.0.5"
pathdiff = "=0.2.3"
regex = "=1.13.1"
serde_json = "=1.0.154"
text-splitter = { version = "=0.33.0", features = ["code", "markdown", "tiktoken-rs"] }
tiktoken-rs = "=0.12.1"
tree-sitter = "=0.27.1"
tree-sitter-bash = "*"
tree-sitter-c = "*"
tree-sitter-c-sharp = "*"
tree-sitter-cpp = "*"
tree-sitter-css = "*"
tree-sitter-go = "*"
tree-sitter-haskell = "*"
tree-sitter-html = "*"
tree-sitter-java = "*"
tree-sitter-javascript = "=0.25.0"
tree-sitter-json = "*"
tree-sitter-julia = "*"
tree-sitter-ocaml = "*"
tree-sitter-php = "*"
tree-sitter-python = "=0.25.0"
tree-sitter-ruby = "*"
tree-sitter-rust = "=0.24.2"
tree-sitter-scala = "*"
tree-sitter-typescript = "*"
