//! Template composition for static sites: documents that carry a small set
//! of directive elements are resolved into finished document trees.

pub mod text;
pub mod scope;
pub mod config;
pub mod front_matter;
pub mod writer;
pub mod tree;
pub mod dom;
pub mod parser;
pub mod directive;
pub mod resolve;
pub mod source;
pub mod processor;
pub mod laws;
pub mod composition;
pub mod assembly;
