//! The queries: reading entities, and the collection's own description.

pub mod info;
pub mod read;
