//! Reads a registry of contracts page by page: by an index, by a tag, or by a
//! relationship. [`read::read`] is the entry point.

pub mod admission;
pub mod bytes;
pub mod decimal;
pub mod error;
pub mod hex;
pub mod keys;
pub mod laws;
pub mod layout;
pub mod metadata;
pub mod models;
pub mod order;
pub mod page;
pub mod pagination;
pub mod read;
pub mod scan;
pub mod store;
pub mod text;
pub mod window;
pub mod wire;
