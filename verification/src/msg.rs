//! The operations that the store answers, as plain values.

use vstd::prelude::*;
use crate::document::Document;
use crate::schema::EntitySchema;
use crate::state::CollectionMetadata;

verus! {

/// What a new collection is made of. Without an operator the sender
/// becomes the operator.
#[derive(Debug)]
pub struct InstantiateMsg {
    pub schema: EntitySchema,
    pub operator: Option<String>,
    pub metadata: Option<CollectionMetadata>,
}

#[derive(Debug)]
pub enum ExecuteMsg {
    Create(CreateArgs),
    Update(UpdateArgs),
    Delete(DeleteArgs),
}

#[derive(Debug)]
pub struct CreateArgs {
    pub id: u64,
    pub data: Document,
}

/// One end of an index query, by the value of the property.
#[derive(Debug)]
pub enum IndexBound {
    Inclusive(Document),
    Exclusive(Document),
}

#[derive(Debug)]
pub enum ReadTarget {
    /// The entities of these ids, in this order.
    Ids(Vec<u64>),
    /// One page of the index of a property.
    Index {
        property: String,
        cursor: Option<Vec<u8>>,
        start: Option<IndexBound>,
        stop: Option<IndexBound>,
        limit: Option<u8>,
    },
}

#[derive(Debug)]
pub struct ReadArgs {
    pub target: ReadTarget,
    pub desc: Option<bool>,
    pub select: Option<Vec<String>>,
}

/// How an update treats the members that the new document does not name.
#[derive(PartialEq, Eq, Structural, Clone, Copy, Debug)]
pub enum UpdateMode {
    /// They stay as they are.
    Merge,
    /// They are dropped.
    Replace,
}

#[derive(Debug)]
pub struct UpdateArgs {
    pub id: u64,
    pub data: Document,
    pub mode: UpdateMode,
}

#[derive(Debug)]
pub struct DeleteArgs {
    pub id: u64,
}

#[derive(Debug)]
pub enum QueryMsg {
    Read(ReadArgs),
    Info {  },
}

#[derive(Debug)]
pub struct MigrateMsg {}

} // verus!
