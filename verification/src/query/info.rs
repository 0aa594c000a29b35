//! What a collection says of itself.

use vstd::prelude::*;
use crate::error::{ContractError, ErrorKind};
use crate::responses::InfoResponse;
use crate::state::QueryContext;
use crate::store::StoreView;

verus! {

/// What `query_info` returns: the metadata, the schema, the operator
/// and the live-entity count. A store that has not been set up has no
/// operator, and is refused.
pub open spec fn informs(store: StoreView, outcome: Result<InfoResponse, ContractError>) -> bool {
    match outcome {
        Ok(info) => store.operator == Some(info.operator@) && info.size == store.size
            && info.metadata.same(store.metadata) && info.schema.same(store.schema),
        Err(error) => store.operator is None && error.says(
            ErrorKind::NotFound,
            "operator not set"@,
        ),
    }
}

/// What the collection says of itself.
pub fn query_info(ctx: QueryContext) -> (outcome: Result<InfoResponse, ContractError>)
    ensures
        informs(ctx.store@, outcome),
{
    match ctx.store.operator() {
        Some(operator) => Ok(
            InfoResponse {
                metadata: ctx.store.metadata().duplicate(),
                schema: ctx.store.schema().duplicate(),
                operator: operator.clone(),
                size: ctx.store.size(),
            },
        ),
        None => Err(ContractError::NotFound { reason: String::from_str("operator not set") }),
    }
}

} // verus!
