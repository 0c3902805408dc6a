//! Builds the nested key-value context of a page server from a directory of
//! data files, and decides what each page request is answered with.

pub mod document;
pub mod json;
pub mod names;
pub mod render;
pub mod tree;
pub mod walker;
