//! A static-site generator: which files of a source tree are read for
//! metadata, which are published, and how each published file becomes its
//! artifact in the output tree.

pub mod command;
pub mod compose;
pub mod dispatch;
pub mod error;
pub mod gather;
pub mod metadata;
pub mod path;
pub mod preamble;
pub mod store;
pub mod text;
