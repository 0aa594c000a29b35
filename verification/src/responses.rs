//! What the operations hand back.

use vstd::prelude::*;
use crate::document::{Document, DocumentView};
use crate::schema::EntitySchema;
use crate::state::CollectionMetadata;

verus! {

/// One attribute of a response: a key and its value.
#[derive(Debug, PartialEq)]
pub struct Attribute {
    pub key: String,
    pub value: String,
}

/// What a mutating operation reports: attributes, in order.
#[derive(Debug, PartialEq)]
pub struct Response {
    pub attributes: Vec<Attribute>,
}

impl View for Response {
    type V = Seq<(Seq<char>, Seq<char>)>;

    open spec fn view(&self) -> Seq<(Seq<char>, Seq<char>)> {
        Seq::new(
            self.attributes@.len(),
            |i: int| (self.attributes@[i].key@, self.attributes@[i].value@),
        )
    }
}

impl Response {
    /// A response without attributes.
    pub fn new() -> (response: Response)
        ensures
            response@ == Seq::<(Seq<char>, Seq<char>)>::empty(),
    {
        let response = Response { attributes: Vec::new() };
        assert(response@ =~= Seq::<(Seq<char>, Seq<char>)>::empty());
        response
    }

    /// The response with one more attribute at the end.
    pub fn add_attribute(self, key: &str, value: &str) -> (response: Response)
        ensures
            response@ == self@.push((key@, value@)),
    {
        let mut attributes = self.attributes;
        attributes.push(Attribute { key: String::from_str(key), value: String::from_str(value) });
        let response = Response { attributes };
        assert(response@ =~= self@.push((key@, value@)));
        response
    }
}

/// One row of a read: the id and, where fields were selected, the data.
#[derive(Debug, PartialEq)]
pub struct Entity {
    pub id: u64,
    pub data: Option<Document>,
}

impl View for Entity {
    type V = (u64, Option<DocumentView>);

    open spec fn view(&self) -> (u64, Option<DocumentView>) {
        (
            self.id,
            match self.data {
                Some(d) => Some(d@),
                None => None,
            },
        )
    }
}

/// The rows that a vector of entities stands for.
pub open spec fn entities_view(entities: Seq<Entity>) -> Seq<(u64, Option<DocumentView>)> {
    Seq::new(entities.len(), |i: int| entities[i]@)
}

/// One page of a read, and the cursor to go on from.
#[derive(Debug, PartialEq)]
pub struct ReadResponse {
    pub entities: Vec<Entity>,
    pub cursor: Option<Vec<u8>>,
}

impl View for ReadResponse {
    type V = (Seq<(u64, Option<DocumentView>)>, Option<Seq<u8>>);

    open spec fn view(&self) -> (Seq<(u64, Option<DocumentView>)>, Option<Seq<u8>>) {
        (
            entities_view(self.entities@),
            match self.cursor {
                Some(c) => Some(c@),
                None => None,
            },
        )
    }
}

#[derive(Debug)]
pub struct InfoResponse {
    pub metadata: CollectionMetadata,
    pub schema: EntitySchema,
    pub operator: String,
    pub size: u32,
}

} // verus!
