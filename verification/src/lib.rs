//! Stage alt selection and lookup redirection over a hash-indexed content archive.

pub mod alts;
pub mod archive;
pub mod builder;
pub mod catalog;
pub mod fix;
pub mod folders;
pub mod hash;
pub mod index;
pub mod loader;
pub mod logger;
pub mod order;
pub mod patch;
pub mod redirect;
pub mod script;
pub mod search;
pub mod table;
pub mod tree;
pub mod ui;
