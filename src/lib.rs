//! Document compiler and resource cache of a static site generator.
//!
//! The library turns markdown with front matter into HTML, merges pages into
//! templates, rewrites the references of compiled HTML and names the blobs of
//! its content-addressed resource cache. Everything that reads or writes the
//! outside world (files, network, the terminal) lives with the caller; the
//! library hands it plain values.
pub mod ast;
pub mod cache;
pub mod cli;
pub mod css;
pub mod error;
pub mod front_matter;
pub mod html;
pub mod image;
pub mod item;
pub mod markdown;
pub mod markdown_scan;
pub mod markdown_spec;
pub mod selector;
pub mod template;
pub mod template_spec;
pub mod text;
pub mod value;
