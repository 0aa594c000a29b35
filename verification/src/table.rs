//! The primary table: the stored entity of each id.

use vstd::prelude::*;
use std::collections::BTreeMap;
use crate::document::{Document, DocumentView};

verus! {

broadcast use {vstd::std_specs::btree::group_btree_axioms, vstd::laws_cmp::group_laws_cmp};

/// A stored entity: its document, and when it was created and last updated.
#[derive(Debug)]
pub struct Record {
    pub data: Document,
    pub created_at: u64,
    pub updated_at: Option<u64>,
}

pub struct RecordView {
    pub data: DocumentView,
    pub created_at: u64,
    pub updated_at: Option<u64>,
}

impl View for Record {
    type V = RecordView;

    open spec fn view(&self) -> RecordView {
        RecordView { data: self.data@, created_at: self.created_at, updated_at: self.updated_at }
    }
}

/// The records by id.
#[derive(Debug)]
pub struct Table {
    map: BTreeMap<u64, Record>,
}

impl Table {
    /// The stored records themselves, by id.
    pub closed spec fn records(&self) -> Map<u64, Record> {
        self.map@
    }

    /// The table without records.
    pub fn new() -> (table: Table)
        ensures
            table@ == Map::<u64, RecordView>::empty(),
            table.records() == Map::<u64, Record>::empty(),
    {
        let table = Table { map: BTreeMap::new() };
        assert(table@ =~= Map::<u64, RecordView>::empty());
        table
    }

    pub proof fn lemma_view(&self)
        ensures
            self@.dom() == self.records().dom(),
            self@.dom().finite(),
            self@.len() == self.records().len(),
            forall|id: u64| #[trigger] self@.contains_key(id) ==> self@[id] == self.records()[id]@,
    {
        assert(self@.dom() =~= self.records().dom());
    }

    /// How many records the table holds.
    pub fn len(&self) -> (len: usize)
        ensures
            len == self@.len(),
    {
        proof {
            self.lemma_view();
        }
        self.map.len()
    }

    /// The record of `id`.
    pub fn get(&self, id: u64) -> (found: Option<&Record>)
        ensures
            match found {
                Some(record) => self@.contains_key(id) && self@[id] == record@ && self.records()[id]
                    == *record,
                None => !self@.contains_key(id),
            },
    {
        self.map.get(&id)
    }

    /// Whether `id` has a record.
    pub fn contains(&self, id: u64) -> (yes: bool)
        ensures
            yes == self@.contains_key(id),
    {
        self.map.contains_key(&id)
    }

    /// Stores `record` under `id`, in place of the one there, if any.
    pub fn insert(&mut self, id: u64, record: Record)
        ensures
            final(self)@ == old(self)@.insert(id, record@),
            final(self).records() == old(self).records().insert(id, record),
    {
        self.map.insert(id, record);
        assert(self@ =~= old(self)@.insert(id, record@));
    }

    /// Takes the record of `id` out.
    pub fn remove(&mut self, id: u64)
        ensures
            final(self)@ == old(self)@.remove(id),
            final(self).records() == old(self).records().remove(id),
    {
        self.map.remove(&id);
        assert(self@ =~= old(self)@.remove(id));
    }
}

impl View for Table {
    type V = Map<u64, RecordView>;

    open spec fn view(&self) -> Map<u64, RecordView> {
        Map::new(|id: u64| self.records().contains_key(id), |id: u64| self.records()[id]@)
    }
}

} // verus!
