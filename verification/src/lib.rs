//! Core of a "go to definition" service for documentation markup: given a
//! cursor position in an open document, locate the smallest enclosing tag,
//! classify it, and resolve the file path that the tag references.

pub mod laws;
pub mod locate;
pub mod resolve;
pub mod respond;
pub mod store;
pub mod tag;
