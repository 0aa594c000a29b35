//! The context of an operation: the store, the caller and the time.

use vstd::prelude::*;
use vstd::string::*;
use crate::document::Document;
use crate::error::{ContractError, ErrorKind};
use crate::index::PropertyIndex;
use crate::msg::{CreateArgs, DeleteArgs, InstantiateMsg, UpdateArgs};
use crate::responses::Response;
use crate::schema::EntitySchema;
use crate::store::{
    all_reconciled,
    all_rows,
    reconcile_all,
    coherent,
    created,
    deleted,
    updated,
    Store,
    StoreView,
};
use crate::table::RecordView;

verus! {

/// The id of an entity.
pub type ObjectId = u64;

/// What a collection says of itself.
#[derive(Debug)]
pub struct CollectionMetadata {
    pub name: Option<String>,
    pub description: Option<String>,
    pub website: Option<String>,
}

/// The characters of a string that may be absent.
pub open spec fn text_of(text: Option<String>) -> Option<Seq<char>> {
    match text {
        Some(s) => Some(s@),
        None => None,
    }
}

fn duplicate_text(text: &Option<String>) -> (copy: Option<String>)
    ensures
        text_of(copy) == text_of(*text),
{
    match text {
        Some(s) => Some(s.clone()),
        None => None,
    }
}

impl CollectionMetadata {
    /// Both say the same.
    pub open spec fn same(&self, other: CollectionMetadata) -> bool {
        text_of(self.name) == text_of(other.name) && text_of(self.description) == text_of(
            other.description,
        ) && text_of(self.website) == text_of(other.website)
    }

    /// A copy that says the same.
    pub fn duplicate(&self) -> (copy: CollectionMetadata)
        ensures
            copy.same(*self),
    {
        CollectionMetadata {
            name: duplicate_text(&self.name),
            description: duplicate_text(&self.description),
            website: duplicate_text(&self.website),
        }
    }
}

/// What a mutating operation works in: the store, the time of the block
/// in nanoseconds, and the address of the caller.
pub struct ExecuteContext {
    pub store: Store,
    pub time: u64,
    pub sender: String,
}

/// What a query works in.
pub struct QueryContext<'a> {
    pub store: &'a Store,
}

/// The reason given to a caller who is not the operator.
pub open spec fn operator_required() -> Seq<char> {
    "operator required"@
}

impl ExecuteContext {
    pub fn new(store: Store, time: u64, sender: String) -> (ctx: ExecuteContext)
        ensures
            ctx.store == store,
            ctx.time == time,
            ctx.sender == sender,
    {
        ExecuteContext { store, time, sender }
    }

    /// The caller is the operator.
    pub open spec fn authorized(&self) -> bool {
        self.store@.operator == Some(self.sender@)
    }

    /// What setting a collection up does. The store is made afresh: the
    /// schema, the metadata, the operator (the caller where the message
    /// names none), and no entities. A schema in which two properties
    /// share a name is refused, and nothing changes.
    pub open spec fn set_up(
        before: ExecuteContext,
        after: ExecuteContext,
        msg: InstantiateMsg,
        outcome: Result<Response, ContractError>,
    ) -> bool {
        &&& after.time == before.time
        &&& after.sender == before.sender
        &&& match outcome {
            Ok(response) => {
                &&& msg.schema.unique_names()
                &&& response@ == seq![("action"@, "instantiate"@)]
                &&& coherent(after.store@)
                &&& after.store@.schema == msg.schema
                &&& after.store@.operator == Some(
                    match msg.operator {
                        Some(operator) => operator@,
                        None => before.sender@,
                    },
                )
                &&& after.store@.metadata == match msg.metadata {
                    Some(metadata) => metadata,
                    None => CollectionMetadata { name: None, description: None, website: None },
                }
                &&& after.store@.size == 0
                &&& after.store@.records == Map::<u64, RecordView>::empty()
            },
            Err(error) => !msg.schema.unique_names() && after.store == before.store && error.says(
                ErrorKind::ValidationError,
                "schema declares a property more than once"@,
            ),
        }
    }

    /// Sets the collection up afresh.
    pub fn instantiate(&mut self, msg: InstantiateMsg) -> (outcome: Result<
        Response,
        ContractError,
    >)
        ensures
            ExecuteContext::set_up(*old(self), *final(self), msg, outcome),
    {
        let InstantiateMsg { operator, schema, metadata } = msg;
        let operator = match operator {
            Some(operator) => operator,
            None => self.sender.clone(),
        };
        let metadata = match metadata {
            Some(metadata) => metadata,
            None => CollectionMetadata { name: None, description: None, website: None },
        };
        match Store::instantiate(schema, operator, metadata) {
            Ok(store) => {
                self.store = store;
                let response = Response::new().add_attribute("action", "instantiate");
                assert(response@ =~= seq![("action"@, "instantiate"@)]);
                Ok(response)
            },
            Err(error) => Err(error),
        }
    }

    pub fn set_collection_metadata(&mut self, metadata: &CollectionMetadata) -> (outcome: Result<
        (),
        ContractError,
    >)
        ensures
            outcome is Ok,
            final(self).time == old(self).time,
            final(self).sender == old(self).sender,
            final(self).store@.metadata.same(*metadata),
            final(self).store@ == (
                StoreView { metadata: final(self).store@.metadata, ..old(self).store@ }
            ),
    {
        self.store.set_metadata(metadata.duplicate());
        Ok(())
    }

    /// Makes a new address the operator. `new_operator` is what the
    /// host's address validation made of the address: the validated
    /// address, or nothing where it refused. A refused address changes
    /// nothing.
    pub fn set_operator(&mut self, new_operator: Option<String>) -> (outcome: Result<
        (),
        ContractError,
    >)
        ensures
            final(self).time == old(self).time,
            final(self).sender == old(self).sender,
            match new_operator {
                Some(address) => outcome is Ok && final(self).store@ == (
                    StoreView { operator: Some(address@), ..old(self).store@ }
                ),
                None => final(self).store == old(self).store && outcome is Err
                    && outcome->Err_0.says(
                    ErrorKind::ValidationError,
                    "invalid new operator address"@,
                ),
            },
    {
        match new_operator {
            Some(address) => {
                self.store.set_operator(address);
                Ok(())
            },
            None => Err(
                ContractError::ValidationError {
                    reason: String::from_str("invalid new operator address"),
                },
            ),
        }
    }

    /// Passes only where the caller is the operator.
    pub fn require_operator(&self) -> (outcome: Result<(), ContractError>)
        ensures
            match outcome {
                Ok(()) => self.authorized(),
                Err(error) => !self.authorized() && error.says(
                    ErrorKind::NotAuthorized,
                    operator_required(),
                ),
            },
    {
        let allowed = match self.store.operator() {
            Some(operator) => *operator == self.sender,
            None => false,
        };
        if allowed {
            Ok(())
        } else {
            Err(ContractError::NotAuthorized { reason: String::from_str("operator required") })
        }
    }

    pub fn create_entity(&mut self, args: CreateArgs) -> (outcome: Result<(), ContractError>)
        ensures
            final(self).time == old(self).time,
            final(self).sender == old(self).sender,
            created(
                old(self).store@,
                final(self).store@,
                args.id,
                args.data@,
                old(self).time,
                outcome,
            ),
            coherent(old(self).store@),
            coherent(final(self).store@),
    {
        let CreateArgs { id, data } = args;
        self.store.create(id, data, self.time)
    }

    pub fn update_entity(&mut self, args: UpdateArgs) -> (outcome: Result<(), ContractError>)
        ensures
            final(self).time == old(self).time,
            final(self).sender == old(self).sender,
            updated(
                old(self).store@,
                final(self).store@,
                args.id,
                args.data@,
                args.mode,
                old(self).time,
                outcome,
            ),
            coherent(old(self).store@),
            coherent(final(self).store@),
    {
        let UpdateArgs { id, data, mode } = args;
        self.store.update(id, data, mode, self.time)
    }

    pub fn delete_entity(&mut self, args: DeleteArgs) -> (outcome: Result<(), ContractError>)
        ensures
            final(self).time == old(self).time,
            final(self).sender == old(self).sender,
            deleted(old(self).store@, final(self).store@, args.id, outcome),
            coherent(old(self).store@),
            coherent(final(self).store@),
    {
        let DeleteArgs { id } = args;
        self.store.delete(id)
    }

    /// A copy of the schema.
    pub fn load_schema(&self) -> (outcome: Result<EntitySchema, ContractError>)
        ensures
            outcome is Ok,
            outcome->Ok_0.same(self.store@.schema),
    {
        Ok(self.store.schema().duplicate())
    }

    /// Validates `new_entity` against the schema and `old_entity` as an
    /// object, and only then reconciles every index for the entity `id`.
    /// A document that is no object is unexpected; an object that fails
    /// a property is a validation error. On an error no index has changed.
    pub fn update_indices(
        indices: &mut Vec<PropertyIndex>,
        id: u64,
        old_entity: &Document,
        new_entity: &Document,
        schema: &EntitySchema,
    ) -> (outcome: Result<(), ContractError>)
        requires
            old(indices)@.len() == schema.properties@.len(),
        ensures
            match outcome {
                Ok(()) => old_entity@ is Object && schema.accepts(new_entity@) && all_reconciled(
                    all_rows(old(indices)@),
                    all_rows(final(indices)@),
                    schema.properties@,
                    id,
                    Some(old_entity@),
                    Some(new_entity@),
                ),
                Err(error) => *final(indices) == *old(indices) && if old_entity@ is Object {
                    schema.fault(new_entity@) is Some && error.says(
                        schema.fault_kind(new_entity@),
                        schema.fault(new_entity@)->0,
                    )
                } else {
                    error.says(ErrorKind::Unexpected, "existing entity is not an object"@)
                },
            },
    {
        if !old_entity.is_object() {
            return Err(
                ContractError::Unexpected {
                    reason: String::from_str("existing entity is not an object"),
                },
            );
        }
        match schema.validate(new_entity) {
            Ok(()) => {},
            Err(error) => {
                return Err(error);
            },
        }
        reconcile_all(indices, schema, id, Some(old_entity), Some(new_entity));
        Ok(())
    }
}

} // verus!
