//! Verified core of a set of small command-line tools: a tag index for
//! files, an image batch editor, a web page downloader, a file encryption
//! pipeline and hand-written futures.

pub mod text;
pub mod arith;
pub mod index;
pub mod backend;
pub mod image_cli;
pub mod uploader;
pub mod timing;
pub mod pipeline;
pub mod downloader;
pub mod macros_demo;
pub mod sync_primitives;
