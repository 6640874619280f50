//! Asteria: the verified core of a small browser engine. Text and CSS
//! parsing, the DOM and the tree builder, the scene graph's bookkeeping,
//! the browser shell's tabs and commands, networking decisions (URLs, HTTP
//! messages, DNS caching and rebinding protection, TLS server names), and
//! the caches, pools and schedulers around them.

pub mod text;

pub mod css_tokens;
pub mod css_tokenizer;
pub mod css_parser;
pub mod style;
pub mod properties;
pub mod interner;

pub mod tokens;
pub mod dom;
pub mod parser;
pub mod loader;
pub mod image;

pub mod paint;
pub mod scene;
pub mod segment;
pub mod batching;
pub mod buffer_pool;
pub mod font;

pub mod shell;
pub mod shell_ui;
pub mod chrome;
pub mod commands;

pub mod cache;
pub mod pool;
pub mod arena;
pub mod scheduler;
pub mod devtools;
pub mod net;
