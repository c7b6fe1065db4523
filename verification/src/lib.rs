//! A schema-driven configuration tree: a schema is compiled into a tree of
//! typed nodes, configuration values are bound onto that tree, edits are
//! applied by path, and the modified part of the tree is projected back
//! into a generic value.
pub mod format;
pub mod json;
pub mod keys;
pub mod laws;
pub mod node;
pub mod number;
pub mod page;
pub mod samples;
pub mod schema;
pub mod seqs;
pub mod text;
pub mod value;
