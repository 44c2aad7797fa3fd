//! Aggregates the text files of a directory tree into one document.

pub mod binary;
pub mod classify;
pub mod decode;
pub mod order;
pub mod paths;
pub mod render;
pub mod select;
pub mod text;
pub mod walker;
