//! The store: the primary table, the live count and one index per declared
//! property, kept consistent with one another by every operation.

use vstd::prelude::*;
use vstd::string::*;
use crate::document::{merge, overlay, Document, DocumentView};
use crate::error::{ContractError, ErrorKind};
use crate::index::{ascending, page, rows_of, Bound, IndexEntry, PropertyIndex};
use crate::keys::{side_of, Row, Side};
use crate::msg::UpdateMode;
use crate::schema::{EntityProperty, EntitySchema};
use crate::state::{CollectionMetadata, ExecuteContext};
use crate::table::{Record, RecordView, Table};
use crate::text::{decimal, decimal_text};

verus! {

/// What a store holds.
pub struct StoreView {
    /// The one address that may update and delete; none before the
    /// collection is set up.
    pub operator: Option<Seq<char>>,
    pub metadata: CollectionMetadata,
    pub schema: EntitySchema,
    /// The live-entity count.
    pub size: u32,
    /// The stored entity of each id.
    pub records: Map<u64, RecordView>,
    /// The rows of the index of each declared property, by the property's
    /// position in the schema.
    pub indices: Seq<Seq<Row>>,
}

/// `row` belongs in the index of `property`: the property is indexed, the
/// id holds an entity, the entity's document has the property, and the
/// key is the key of its value.
pub open spec fn stored_row(property: EntityProperty, records: Map<u64, RecordView>, row: Row)
    -> bool {
    property.is_indexed() && records.contains_key(row.1) && property.holds(
        records[row.1].data,
        row.0,
    )
}

/// The store is consistent: the count is the number of stored entities,
/// every stored document is valid for the schema, and the index of each
/// property holds, in ascending order, exactly the rows that belong in
/// it: none dangling, none missing.
pub open spec fn coherent(store: StoreView) -> bool {
    &&& store.indices.len() == store.schema.properties@.len()
    &&& store.records.dom().finite()
    &&& store.size == store.records.len()
    &&& forall|id: u64| #[trigger]
        store.records.contains_key(id) ==> store.schema.accepts(store.records[id].data)
    &&& forall|i: int| 0 <= i < store.indices.len() ==> ascending(#[trigger] store.indices[i])
    &&& forall|i: int, row: Row|
        0 <= i < store.indices.len() ==> (#[trigger] store.indices[i].contains(row) <==> stored_row(
            store.schema.properties@[i],
            store.records,
            row,
        ))
}

/// The rows of each of a vector of indices.
pub open spec fn all_rows(indices: Seq<PropertyIndex>) -> Seq<Seq<Row>> {
    Seq::new(indices.len(), |i: int| indices[i]@)
}

/// The member called `name` of a document that may be absent.
pub open spec fn member(document: Option<DocumentView>, name: Seq<char>) -> Option<DocumentView> {
    match document {
        Some(d) => d.lookup(name),
        None => None,
    }
}

/// The change that the index of `property` needs where the value of an
/// entity goes from `old_value` to `new_value`: the key to take out and
/// the key to put in. Where both values have the same key, or neither
/// has one, nothing is to change. Else the key of the old value goes out,
/// and the key of the new value comes in if the property is indexed.
pub open spec fn needed_change(
    property: EntityProperty,
    old_value: Option<DocumentView>,
    new_value: Option<DocumentView>,
) -> (Option<Seq<u8>>, Option<Seq<u8>>) {
    if property.key_of(old_value) == property.key_of(new_value) {
        (None, None)
    } else {
        (
            property.key_of(old_value),
            if property.is_indexed() {
                property.key_of(new_value)
            } else {
                None
            },
        )
    }
}

/// What reconciling does to the rows of one index, for the entity `id`
/// whose property changed from `old_value` to `new_value`: the row that
/// the change takes out leaves, the row that it puts in enters, and
/// every other row stays. Where the two values have the same key, the
/// rows are exactly those of before.
pub open spec fn reconciled(
    before: Seq<Row>,
    after: Seq<Row>,
    property: EntityProperty,
    id: u64,
    old_value: Option<DocumentView>,
    new_value: Option<DocumentView>,
) -> bool {
    &&& property.key_of(old_value) == property.key_of(new_value) ==> after == before
    &&& forall|row: Row| #[trigger]
        after.contains(row) <==> ((row.1 == id && needed_change(property, old_value, new_value).1
            == Some(row.0)) || (before.contains(row) && !(row.1 == id && needed_change(
            property,
            old_value,
            new_value,
        ).0 == Some(row.0))))
}

/// Every index is reconciled for the entity `id`, whose document changed
/// from `old_document` to `new_document`.
pub open spec fn all_reconciled(
    before: Seq<Seq<Row>>,
    after: Seq<Seq<Row>>,
    properties: Seq<EntityProperty>,
    id: u64,
    old_document: Option<DocumentView>,
    new_document: Option<DocumentView>,
) -> bool {
    &&& after.len() == before.len()
    &&& forall|i: int|
        0 <= i < before.len() ==> ascending(#[trigger] after[i]) && reconciled(
            before[i],
            after[i],
            properties[i],
            id,
            member(old_document, properties[i].name@),
            member(new_document, properties[i].name@),
        )
}

pub open spec fn view_of(value: Option<&Document>) -> Option<DocumentView> {
    match value {
        Some(d) => Some(d@),
        None => None,
    }
}

fn key_for(property: &EntityProperty, value: Option<&Document>) -> (key: Option<Vec<u8>>)
    ensures
        match key {
            Some(k) => property.key_of(view_of(value)) == Some(k@),
            None => property.key_of(view_of(value)) is None,
        },
{
    match value {
        Some(v) => match property.to_bytes(v) {
            Ok(k) => Some(k),
            Err(_) => None,
        },
        None => None,
    }
}

/// What a change to one entity asks of the index of one property: the key
/// of the row to take out and the key of the row to put in, if any.
#[derive(Debug, PartialEq)]
pub struct KeyChange {
    pub remove: Option<Vec<u8>>,
    pub insert: Option<Vec<u8>>,
}

/// The bytes of a key that may be absent.
pub open spec fn key_view(key: Option<Vec<u8>>) -> Option<Seq<u8>> {
    match key {
        Some(k) => Some(k@),
        None => None,
    }
}

fn same_key(a: &Option<Vec<u8>>, b: &Option<Vec<u8>>) -> (same: bool)
    ensures
        same == (key_view(*a) == key_view(*b)),
{
    match (a, b) {
        (Some(x), Some(y)) => side_of(x, y) == Side::Same,
        (None, None) => true,
        _ => false,
    }
}

/// The change that the index of `property` needs where the value of an
/// entity goes from `old_value` to `new_value`: none where both have the
/// same key.
pub fn key_change(
    property: &EntityProperty,
    old_value: Option<&Document>,
    new_value: Option<&Document>,
) -> (change: KeyChange)
    ensures
        (key_view(change.remove), key_view(change.insert)) == needed_change(
            *property,
            view_of(old_value),
            view_of(new_value),
        ),
{
    let remove = key_for(property, old_value);
    let insert = key_for(property, new_value);
    if same_key(&remove, &insert) {
        KeyChange { remove: None, insert: None }
    } else if property.has_index() {
        KeyChange { remove, insert }
    } else {
        KeyChange { remove, insert: None }
    }
}

/// Applies a change to an index, for the entity `id`: first the row that
/// leaves, then the row that enters.
pub fn apply_change(index: &mut PropertyIndex, id: u64, change: KeyChange)
    ensures
        ascending(final(index)@),
        change.remove is None && change.insert is None ==> final(index)@ == old(index)@,
        forall|row: Row| #[trigger]
            final(index)@.contains(row) <==> ((row.1 == id && key_view(change.insert) == Some(
                row.0,
            )) || (old(index)@.contains(row) && !(row.1 == id && key_view(change.remove) == Some(
                row.0,
            )))),
{
    index.in_order();
    let KeyChange { remove, insert } = change;
    match remove {
        Some(key) => {
            index.remove(&key, id);
        },
        None => {},
    }
    let ghost between = index@;
    match insert {
        Some(key) => {
            index.insert(key, id);
        },
        None => {},
    }
    assert forall|row: Row| #[trigger]
        index@.contains(row) <==> ((row.1 == id && key_view(change.insert) == Some(row.0)) || (old(
            index,
        )@.contains(row) && !(row.1 == id && key_view(change.remove) == Some(row.0)))) by {
        assert(between.contains(row) <==> (old(index)@.contains(row) && !(row.1 == id && key_view(
            change.remove,
        ) == Some(row.0))));
    }
}

/// Brings the index of `property` up to date for the entity `id`, whose
/// value changed from `old_value` to `new_value`. Where the two have the
/// same key, nothing changes.
pub fn reconcile(
    index: &mut PropertyIndex,
    property: &EntityProperty,
    id: u64,
    old_value: Option<&Document>,
    new_value: Option<&Document>,
)
    ensures
        ascending(final(index)@),
        reconciled(old(index)@, final(index)@, *property, id, view_of(old_value), view_of(new_value)),
{
    apply_change(index, id, key_change(property, old_value, new_value));
}

/// Reconciles every index for the entity `id`, whose document changed
/// from `old_document` to `new_document`; either may be absent.
pub fn reconcile_all(
    indices: &mut Vec<PropertyIndex>,
    schema: &EntitySchema,
    id: u64,
    old_document: Option<&Document>,
    new_document: Option<&Document>,
)
    requires
        old(indices)@.len() == schema.properties@.len(),
    ensures
        all_reconciled(
            all_rows(old(indices)@),
            all_rows(final(indices)@),
            schema.properties@,
            id,
            view_of(old_document),
            view_of(new_document),
        ),
{
    let ghost before = indices@;
    let mut i: usize = 0;
    while i < indices.len()
        invariant
            i <= indices@.len(),
            indices@.len() == before.len(),
            before.len() == schema.properties@.len(),
            forall|k: int|
                0 <= k < i ==> ascending(#[trigger] indices@[k]@) && reconciled(
                    before[k]@,
                    indices@[k]@,
                    schema.properties@[k],
                    id,
                    member(view_of(old_document), schema.properties@[k].name@),
                    member(view_of(new_document), schema.properties@[k].name@),
                ),
            forall|k: int| i <= k < indices@.len() ==> #[trigger] indices@[k] == before[k],
        decreases indices@.len() - i,
    {
        let property = &schema.properties[i];
        let old_value = match old_document {
            Some(d) => d.get(&property.name),
            None => None,
        };
        let new_value = match new_document {
            Some(d) => d.get(&property.name),
            None => None,
        };
        reconcile(&mut indices[i], property, id, old_value, new_value);
        i = i + 1;
    }
    assert forall|k: int| 0 <= k < all_rows(before).len() implies ascending(
        #[trigger] all_rows(indices@)[k],
    ) && reconciled(
        all_rows(before)[k],
        all_rows(indices@)[k],
        schema.properties@[k],
        id,
        member(view_of(old_document), schema.properties@[k].name@),
        member(view_of(new_document), schema.properties@[k].name@),
    ) by {
        assert(ascending(indices@[k]@));
    }
}

/// Takes the rows of the entity `id`, whose document is `data`, out of
/// every index.
pub fn remove_entity_from_indices(
    indices: &mut Vec<PropertyIndex>,
    id: u64,
    schema: &EntitySchema,
    data: &Document,
) -> (outcome: Result<(), ContractError>)
    requires
        old(indices)@.len() == schema.properties@.len(),
    ensures
        match outcome {
            Ok(()) => data@ is Object && all_reconciled(
                all_rows(old(indices)@),
                all_rows(final(indices)@),
                schema.properties@,
                id,
                Some(data@),
                None,
            ),
            Err(error) => *final(indices) == *old(indices) && !(data@ is Object) && error.says(
                ErrorKind::Unexpected,
                "entity data not an object"@,
            ),
        },
{
    if !data.is_object() {
        return Err(
            ContractError::Unexpected { reason: String::from_str("entity data not an object") },
        );
    }
    reconcile_all(indices, schema, id, Some(data), None);
    Ok(())
}

impl StoreView {
    /// The rows of the index at `position`; none where no property
    /// stands there.
    pub open spec fn rows(self, position: int) -> Seq<Row> {
        if 0 <= position < self.indices.len() {
            self.indices[position]
        } else {
            Seq::empty()
        }
    }

    /// Operator, metadata and schema are those of `before`.
    pub open spec fn same_settings(self, before: StoreView) -> bool {
        self.operator == before.operator && self.metadata == before.metadata && self.schema
            == before.schema
    }

}

/// The reason of an error about the entity `id`.
pub open spec fn entity_reason(id: u64, what: Seq<char>) -> Seq<char> {
    "entity "@ + decimal(id as nat) + what
}

/// What storing a record under a new id does: it refuses an id that
/// holds an entity, then a document that is not valid, then a full
/// collection, each without any change; else it stores the record and
/// counts it.
pub open spec fn stored(
    before: StoreView,
    after: StoreView,
    id: u64,
    record: RecordView,
    outcome: Result<(), ContractError>,
) -> bool {
    if before.records.contains_key(id) {
        after == before && outcome is Err && outcome->Err_0.says(
            ErrorKind::NotAuthorized,
            entity_reason(id, " already exists"@),
        )
    } else if before.schema.fault(record.data) is Some {
        after == before && outcome is Err && outcome->Err_0.says(
            before.schema.fault_kind(record.data),
            before.schema.fault(record.data)->0,
        )
    } else if before.size == u32::MAX {
        after == before && outcome is Err && outcome->Err_0.says(
            ErrorKind::Unexpected,
            "collection max size reached"@,
        )
    } else {
        outcome is Ok && after.same_settings(before) && after.size == before.size + 1
            && after.records == before.records.insert(id, record)
    }
}

/// What `create` does: it stores the document as a new record, created
/// at `now` and never updated.
pub open spec fn created(
    before: StoreView,
    after: StoreView,
    id: u64,
    data: DocumentView,
    now: u64,
    outcome: Result<(), ContractError>,
) -> bool {
    stored(before, after, id, RecordView { data, created_at: now, updated_at: None }, outcome)
}

/// The document that an update leaves: with `Merge`, the stored document
/// with the members of an object `data` laid over it; else `data`.
pub open spec fn updated_document(stored: DocumentView, data: DocumentView, mode: UpdateMode)
    -> DocumentView {
    if mode == UpdateMode::Merge && data is Object {
        DocumentView::Object(overlay(stored.members(), data.members()))
    } else {
        data
    }
}

/// What `update` does: it refuses an id without entity, then a resulting
/// document that is not valid, each without any change; else it stores
/// the resulting document and the time of the update.
pub open spec fn updated(
    before: StoreView,
    after: StoreView,
    id: u64,
    data: DocumentView,
    mode: UpdateMode,
    now: u64,
    outcome: Result<(), ContractError>,
) -> bool {
    if !before.records.contains_key(id) {
        after == before && outcome is Err && outcome->Err_0.says(
            ErrorKind::NotFound,
            entity_reason(id, " not found"@),
        )
    } else {
        let document = updated_document(before.records[id].data, data, mode);
        if before.schema.fault(document) is Some {
            after == before && outcome is Err && outcome->Err_0.says(
                before.schema.fault_kind(document),
                before.schema.fault(document)->0,
            )
        } else {
            outcome is Ok && after.same_settings(before) && after.size == before.size
                && after.records == before.records.insert(
                id,
                RecordView {
                    data: document,
                    created_at: before.records[id].created_at,
                    updated_at: Some(now),
                },
            )
        }
    }
}

/// What `delete` does: it refuses an id without entity, without any
/// change; else it takes the entity out and counts one less.
pub open spec fn deleted(
    before: StoreView,
    after: StoreView,
    id: u64,
    outcome: Result<(), ContractError>,
) -> bool {
    if !before.records.contains_key(id) {
        after == before && outcome is Err && outcome->Err_0.says(
            ErrorKind::NotFound,
            entity_reason(id, " not found"@),
        )
    } else {
        outcome is Ok && after.same_settings(before) && after.size == before.size - 1
            && after.records == before.records.remove(id)
    }
}

/// A consistent store stays consistent where the document of one id is
/// set or removed, every index is reconciled for that change, and the
/// count follows the table.
pub proof fn lemma_coherent_after(
    before: StoreView,
    after: StoreView,
    id: u64,
    new_document: Option<DocumentView>,
)
    requires
        coherent(before),
        after.schema == before.schema,
        after.records.dom().finite(),
        after.size == after.records.len(),
        match new_document {
            Some(d) => before.schema.accepts(d) && after.records.contains_key(id)
                && after.records[id].data == d,
            None => !after.records.contains_key(id),
        },
        forall|other: u64|
            other != id ==> (#[trigger] after.records.contains_key(other)
                == before.records.contains_key(other) && (before.records.contains_key(other)
                ==> after.records[other] == before.records[other])),
        all_reconciled(
            before.indices,
            after.indices,
            before.schema.properties@,
            id,
            if before.records.contains_key(id) {
                Some(before.records[id].data)
            } else {
                None
            },
            new_document,
        ),
    ensures
        coherent(after),
{
    let old_document = if before.records.contains_key(id) {
        Some(before.records[id].data)
    } else {
        None
    };
    assert forall|other: u64| #[trigger] after.records.contains_key(other) implies after.schema.accepts(
        after.records[other].data,
    ) by {
        if other != id {
            assert(before.records.contains_key(other));
        }
    }
    assert forall|i: int, row: Row| 0 <= i < after.indices.len() implies (
    #[trigger] after.indices[i].contains(row) <==> stored_row(
        after.schema.properties@[i],
        after.records,
        row,
    )) by {
        let property = before.schema.properties@[i];
        assert(ascending(after.indices[i]));
        assert(reconciled(
            before.indices[i],
            after.indices[i],
            property,
            id,
            member(old_document, property.name@),
            member(new_document, property.name@),
        ));
        assert(before.indices[i].contains(row) <==> stored_row(property, before.records, row));
        if row.1 != id {
            assert(after.records.contains_key(row.1) == before.records.contains_key(row.1));
        }
    }
    assert forall|i: int| 0 <= i < after.indices.len() implies ascending(
        #[trigger] after.indices[i],
    ) by {}
}

fn entity_error_text(id: u64, what: &str) -> (text: String)
    ensures
        text@ == entity_reason(id, what@),
{
    let text = String::from_str("entity ").concat(decimal_text(id as u128).as_str()).concat(what);
    text
}

struct State {
    operator: Option<String>,
    metadata: CollectionMetadata,
    schema: EntitySchema,
    count: u32,
    entities: Table,
    indices: Vec<PropertyIndex>,
}

impl View for State {
    type V = StoreView;

    closed spec fn view(&self) -> StoreView {
        StoreView {
            operator: match self.operator {
                Some(s) => Some(s@),
                None => None,
            },
            metadata: self.metadata,
            schema: self.schema,
            size: self.count,
            records: self.entities@,
            indices: all_rows(self.indices@),
        }
    }
}

impl State {
    fn blank() -> (state: State)
        ensures
            coherent(state@),
            state@.is_blank(),
    {
        let state = State {
            operator: None,
            metadata: CollectionMetadata { name: None, description: None, website: None },
            schema: EntitySchema {
                name: String::new(),
                properties: Vec::new(),
            },
            count: 0,
            entities: Table::new(),
            indices: Vec::new(),
        };
        proof {
            state.entities.lemma_view();
        }
        state
    }

    fn put(&mut self, id: u64, record: Record) -> (outcome: Result<(), ContractError>)
        requires
            coherent(old(self)@),
        ensures
            coherent(final(self)@),
            stored(old(self)@, final(self)@, id, record@, outcome),
    {
        if self.entities.contains(id) {
            return Err(
                ContractError::NotAuthorized { reason: entity_error_text(id, " already exists") },
            );
        }
        match self.schema.validate(&record.data) {
            Ok(()) => {},
            Err(error) => {
                return Err(error);
            },
        }
        if self.count == u32::MAX {
            return Err(
                ContractError::Unexpected {
                    reason: String::from_str("collection max size reached"),
                },
            );
        }
        let ghost before = self@;
        let ghost document = record.data@;
        reconcile_all(&mut self.indices, &self.schema, id, None, Some(&record.data));
        self.entities.insert(id, record);
        self.count = self.count + 1;
        proof {
            self.entities.lemma_view();
            lemma_coherent_after(before, self@, id, Some(document));
        }
        Ok(())
    }

    fn update(&mut self, id: u64, data: Document, mode: UpdateMode, now: u64) -> (outcome: Result<
        (),
        ContractError,
    >)
        requires
            coherent(old(self)@),
        ensures
            coherent(final(self)@),
            updated(old(self)@, final(self)@, id, data@, mode, now, outcome),
    {
        let ghost before = self@;
        let record = match self.entities.get(id) {
            Some(record) => record,
            None => {
                return Err(
                    ContractError::NotFound { reason: entity_error_text(id, " not found") },
                );
            },
        };
        let document = if mode == UpdateMode::Merge && data.is_object() {
            merge(&record.data, &data)
        } else {
            data
        };
        proof {
            self.schema.lemma_accepts(record.data@);
        }
        match ExecuteContext::update_indices(
            &mut self.indices,
            id,
            &record.data,
            &document,
            &self.schema,
        ) {
            Ok(()) => {},
            Err(error) => {
                return Err(error);
            },
        }
        let created_at = record.created_at;
        let ghost value = document@;
        self.entities.insert(id, Record { data: document, created_at, updated_at: Some(now) });
        proof {
            self.entities.lemma_view();
            assert(self.entities@.dom() =~= before.records.dom());
            lemma_coherent_after(before, self@, id, Some(value));
        }
        Ok(())
    }

    fn delete(&mut self, id: u64) -> (outcome: Result<(), ContractError>)
        requires
            coherent(old(self)@),
        ensures
            coherent(final(self)@),
            deleted(old(self)@, final(self)@, id, outcome),
    {
        let ghost before = self@;
        let record = match self.entities.get(id) {
            Some(record) => record,
            None => {
                return Err(
                    ContractError::NotFound { reason: entity_error_text(id, " not found") },
                );
            },
        };
        proof {
            assert(before.records.dom().remove(id).len() == before.records.dom().len() - 1);
        }
        if self.count == 0 {
            return Err(
                ContractError::Unexpected {
                    reason: String::from_str("collection count already zero"),
                },
            );
        }
        proof {
            self.schema.lemma_accepts(record.data@);
        }
        match remove_entity_from_indices(&mut self.indices, id, &self.schema, &record.data) {
            Ok(()) => {},
            Err(error) => {
                return Err(error);
            },
        }
        self.entities.remove(id);
        self.count = self.count - 1;
        proof {
            self.entities.lemma_view();
            lemma_coherent_after(before, self@, id, None);
        }
        Ok(())
    }
}

/// The store of one collection. Every store is consistent at all times.
pub struct Store {
    state: State,
}

impl View for Store {
    type V = StoreView;

    closed spec fn view(&self) -> StoreView {
        self.state@
    }
}

impl Store {
    #[verifier::type_invariant]
    spec fn sound(&self) -> bool {
        coherent(self.state@)
    }

    /// A store that has not been set up: no operator, no properties, no
    /// entities.
    pub fn new() -> (store: Store)
        ensures
            coherent(store@),
            store@.is_blank(),
    {
        Store { state: State::blank() }
    }

    /// A fresh store for a collection. A schema in which two properties
    /// share a name is refused.
    pub fn instantiate(schema: EntitySchema, operator: String, metadata: CollectionMetadata) -> (outcome:
        Result<Store, ContractError>)
        ensures
            match outcome {
                Ok(store) => schema.unique_names() && coherent(store@) && store@.schema == schema
                    && store@.operator == Some(operator@) && store@.metadata == metadata
                    && store@.size == 0 && store@.records == Map::<u64, RecordView>::empty(),
                Err(error) => !schema.unique_names() && error.says(
                    ErrorKind::ValidationError,
                    "schema declares a property more than once"@,
                ),
            },
    {
        if !schema.has_unique_names() {
            return Err(
                ContractError::ValidationError {
                    reason: String::from_str("schema declares a property more than once"),
                },
            );
        }
        let mut indices: Vec<PropertyIndex> = Vec::new();
        while indices.len() < schema.properties.len()
            invariant
                indices@.len() <= schema.properties@.len(),
                forall|i: int| 0 <= i < indices@.len() ==> (#[trigger] indices@[i])@.len() == 0,
            decreases schema.properties@.len() - indices@.len(),
        {
            indices.push(PropertyIndex::new());
        }
        let state = State {
            operator: Some(operator),
            metadata,
            schema,
            count: 0,
            entities: Table::new(),
            indices,
        };
        proof {
            state.entities.lemma_view();
            assert forall|i: int, row: Row| 0 <= i < state@.indices.len() implies (
            #[trigger] state@.indices[i].contains(row) <==> stored_row(
                state@.schema.properties@[i],
                state@.records,
                row,
            )) by {
                assert(state.indices@[i]@.len() == 0);
            }
            assert forall|i: int| 0 <= i < state@.indices.len() implies ascending(
                #[trigger] state@.indices[i],
            ) by {
                assert(state.indices@[i]@.len() == 0);
            }
        }
        Ok(Store { state })
    }

    /// Nothing to compute: every store is consistent.
    pub fn coherence(&self)
        ensures
            coherent(self@),
    {
        proof {
            use_type_invariant(self);
        }
    }

    /// The operator, once the collection is set up.
    pub fn operator(&self) -> (operator: Option<&String>)
        ensures
            match operator {
                Some(address) => self@.operator == Some(address@),
                None => self@.operator is None,
            },
    {
        match &self.state.operator {
            Some(address) => Some(address),
            None => None,
        }
    }

    pub fn metadata(&self) -> (metadata: &CollectionMetadata)
        ensures
            *metadata == self@.metadata,
    {
        &self.state.metadata
    }

    pub fn schema(&self) -> (schema: &EntitySchema)
        ensures
            *schema == self@.schema,
    {
        &self.state.schema
    }

    /// The live-entity count.
    pub fn size(&self) -> (size: u32)
        ensures
            size == self@.size,
    {
        self.state.count
    }

    /// The stored entity of `id`.
    pub fn get(&self, id: u64) -> (found: Option<&Record>)
        ensures
            match found {
                Some(record) => self@.records.contains_key(id) && self@.records[id] == record@,
                None => !self@.records.contains_key(id),
            },
    {
        self.state.entities.get(id)
    }

    /// One page of the index of the property at `position`.
    pub fn scan(
        &self,
        position: usize,
        lower: &Bound,
        upper: &Bound,
        descending: bool,
        limit: usize,
    ) -> (found: Vec<IndexEntry>)
        ensures
            rows_of(found@) == page(
                self@.rows(position as int),
                lower@,
                upper@,
                descending,
                limit as nat,
            ),
            coherent(self@),
    {
        proof {
            use_type_invariant(self);
        }
        if position < self.state.indices.len() {
            self.state.indices[position].scan(lower, upper, descending, limit)
        } else {
            let found: Vec<IndexEntry> = Vec::new();
            assert(rows_of(found@) =~= page(
                self@.rows(position as int),
                lower@,
                upper@,
                descending,
                limit as nat,
            ));
            found
        }
    }

    /// Replaces the metadata.
    pub fn set_metadata(&mut self, metadata: CollectionMetadata)
        ensures
            final(self)@ == (StoreView { metadata, ..old(self)@ }),
    {
        proof {
            use_type_invariant(&*self);
        }
        let mut state = State::blank();
        std::mem::swap(&mut state, &mut self.state);
        state.metadata = metadata;
        self.state = state;
    }

    /// Replaces the operator.
    pub fn set_operator(&mut self, operator: String)
        ensures
            final(self)@ == (StoreView { operator: Some(operator@), ..old(self)@ }),
    {
        proof {
            use_type_invariant(&*self);
        }
        let mut state = State::blank();
        std::mem::swap(&mut state, &mut self.state);
        state.operator = Some(operator);
        self.state = state;
    }

    /// Stores a new entity.
    pub fn create(&mut self, id: u64, data: Document, now: u64) -> (outcome: Result<
        (),
        ContractError,
    >)
        ensures
            created(old(self)@, final(self)@, id, data@, now, outcome),
            coherent(old(self)@),
            coherent(final(self)@),
    {
        proof {
            use_type_invariant(&*self);
        }
        let mut state = State::blank();
        std::mem::swap(&mut state, &mut self.state);
        let outcome = state.put(id, Record { data, created_at: now, updated_at: None });
        self.state = state;
        outcome
    }

    /// Stores an entity as it was recorded before, with its times.
    pub fn load(&mut self, id: u64, record: Record) -> (outcome: Result<(), ContractError>)
        ensures
            stored(old(self)@, final(self)@, id, record@, outcome),
            coherent(old(self)@),
            coherent(final(self)@),
    {
        proof {
            use_type_invariant(&*self);
        }
        let mut state = State::blank();
        std::mem::swap(&mut state, &mut self.state);
        let outcome = state.put(id, record);
        self.state = state;
        outcome
    }

    /// Changes the document of an entity.
    pub fn update(&mut self, id: u64, data: Document, mode: UpdateMode, now: u64) -> (outcome:
        Result<(), ContractError>)
        ensures
            updated(old(self)@, final(self)@, id, data@, mode, now, outcome),
            coherent(old(self)@),
            coherent(final(self)@),
    {
        proof {
            use_type_invariant(&*self);
        }
        let mut state = State::blank();
        std::mem::swap(&mut state, &mut self.state);
        let outcome = state.update(id, data, mode, now);
        self.state = state;
        outcome
    }

    /// Takes an entity out.
    pub fn delete(&mut self, id: u64) -> (outcome: Result<(), ContractError>)
        ensures
            deleted(old(self)@, final(self)@, id, outcome),
            coherent(old(self)@),
            coherent(final(self)@),
    {
        proof {
            use_type_invariant(&*self);
        }
        let mut state = State::blank();
        std::mem::swap(&mut state, &mut self.state);
        let outcome = state.delete(id);
        self.state = state;
        outcome
    }
}

/// In a consistent store no entity lacks a required property, and every
/// declared property that an entity has holds a valid value.
pub proof fn lemma_stored_documents_valid(store: StoreView, id: u64, at: int)
    requires
        coherent(store),
        store.records.contains_key(id),
        0 <= at < store.schema.properties@.len(),
    ensures
        store.records[id].data is Object,
        match store.records[id].data.lookup(store.schema.properties@[at].name@) {
            Some(value) => store.schema.properties@[at].value.check(value) is None,
            None => !store.schema.properties@[at].is_required(),
        },
{
    store.schema.lemma_accepts(store.records[id].data);
    assert(store.schema.properties@[at].fault(store.records[id].data) is None);
}

/// The index of an indexed property of a consistent store holds exactly
/// one row for each entity that has the property, and no other row.
pub proof fn lemma_index_exact(store: StoreView, at: int, id: u64)
    requires
        coherent(store),
        0 <= at < store.schema.properties@.len(),
        store.schema.properties@[at].is_indexed(),
    ensures
        (exists|key: Seq<u8>| store.rows(at).contains((key, id))) <==> (store.records.contains_key(
            id,
        ) && store.records[id].data.lookup(store.schema.properties@[at].name@) is Some),
        forall|key: Seq<u8>, other: Seq<u8>|
            store.rows(at).contains((key, id)) && store.rows(at).contains((other, id)) ==> key
                == other,
{
    let property = store.schema.properties@[at];
    let rows = store.rows(at);
    assert(rows == store.indices[at]);
    if store.records.contains_key(id) && store.records[id].data.lookup(property.name@) is Some {
        lemma_stored_documents_valid(store, id, at);
        let value = store.records[id].data.lookup(property.name@)->0;
        let key = property.value.encoding(value);
        assert(stored_row(property, store.records, (key, id)));
        assert(store.indices[at].contains((key, id)));
    }
    if exists|key: Seq<u8>| rows.contains((key, id)) {
        let key = choose|key: Seq<u8>| rows.contains((key, id));
        assert(store.indices[at].contains((key, id)));
        assert(stored_row(property, store.records, (key, id)));
    }
    assert forall|key: Seq<u8>, other: Seq<u8>|
        rows.contains((key, id)) && rows.contains((other, id)) implies key == other by {
        assert(store.indices[at].contains((key, id)));
        assert(store.indices[at].contains((other, id)));
        assert(stored_row(property, store.records, (key, id)));
        assert(stored_row(property, store.records, (other, id)));
    }
}

/// The rows to write for an entity whose document changes from
/// `old_document` to `new_document`, one change for each declared
/// property in order, none where the old and the new value have the same
/// key. Applying them to the indices is what reconciling does.
pub fn key_changes(
    schema: &EntitySchema,
    old_document: Option<&Document>,
    new_document: Option<&Document>,
) -> (changes: Vec<KeyChange>)
    ensures
        changes@.len() == schema.properties@.len(),
        forall|i: int|
            0 <= i < changes@.len() ==> (key_view((#[trigger] changes@[i]).remove), key_view(changes@[i].insert))
                == needed_change(
                schema.properties@[i],
                member(view_of(old_document), schema.properties@[i].name@),
                member(view_of(new_document), schema.properties@[i].name@),
            ),
{
    let mut changes: Vec<KeyChange> = Vec::new();
    let mut i: usize = 0;
    while i < schema.properties.len()
        invariant
            i <= schema.properties@.len(),
            changes@.len() == i,
            forall|k: int|
                0 <= k < i ==> (key_view((#[trigger] changes@[k]).remove), key_view(changes@[k].insert))
                == needed_change(
                schema.properties@[k],
                member(view_of(old_document), schema.properties@[k].name@),
                member(view_of(new_document), schema.properties@[k].name@),
            ),
        decreases schema.properties@.len() - i,
    {
        let property = &schema.properties[i];
        let old_value = match old_document {
            Some(d) => d.get(&property.name),
            None => None,
        };
        let new_value = match new_document {
            Some(d) => d.get(&property.name),
            None => None,
        };
        changes.push(key_change(property, old_value, new_value));
        i = i + 1;
    }
    changes
}

impl StoreView {
    /// Nothing has been set up: no operator, nothing said of the
    /// collection, a schema without name or properties, no entities, and
    /// no index.
    pub open spec fn is_blank(self) -> bool {
        &&& self.operator is None
        &&& self.metadata.name is None
        &&& self.metadata.description is None
        &&& self.metadata.website is None
        &&& self.schema.name@.len() == 0
        &&& self.schema.properties@.len() == 0
        &&& self.size == 0
        &&& self.records == Map::<u64, RecordView>::empty()
        &&& self.indices.len() == 0
    }
}

} // verus!
