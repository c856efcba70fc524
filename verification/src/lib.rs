//! A terminal viewer for markdown and source code: everything it decides and computes.
//!
//! Contracts speak of text as sequences of characters. The terminal, the file system and
//! the programs the viewer runs belong to the application around this library.

pub mod text;
pub mod ansi;
pub mod headings;
pub mod theme;
pub mod config;
pub mod file_type;
pub mod paths;
pub mod paragraphs;
pub mod binary64;
pub mod brightness;
pub mod mermaid;
pub mod code_blocks;
pub mod search;
pub mod patterns;
pub mod links;
pub mod citations;
pub mod pickers;
pub mod zmd;
pub mod keys;
pub mod paint;
pub mod chrome;
pub mod frame;
pub mod images;
pub mod graphics;
pub mod sixel;
pub mod placeholders;
pub mod visible;
pub mod syntaxes;
pub mod highlight;
pub mod layout;
pub mod render;
pub mod session;
pub mod screen;
pub mod file_picker;
pub mod launch;
pub mod image_view;
