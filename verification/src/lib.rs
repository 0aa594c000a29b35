//! An embedded document store: schema-typed entities identified by a numeric
//! id, secondary indices over chosen properties, and cursor-paginated range
//! queries over those indices.

pub mod contract;
pub mod document;
pub mod error;
pub mod execute;
pub mod index;
pub mod keys;
pub mod msg;
pub mod query;
pub mod responses;
pub mod schema;
pub mod state;
pub mod store;
pub mod table;
pub mod text;

pub use document::{Document, DocumentView, Field};
pub use error::{ContractError, ErrorKind};
pub use schema::{EntityProperty, EntityPropertyParams, EntitySchema, Rule};
