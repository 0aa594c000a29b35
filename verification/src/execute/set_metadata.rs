use vstd::prelude::*;
use crate::error::{ContractError, ErrorKind};
use crate::responses::Response;
use crate::state::{operator_required, CollectionMetadata, ExecuteContext};
use crate::store::StoreView;

verus! {

/// Replaces the metadata. Only the operator may.
pub fn exec_set_metadata(ctx: &mut ExecuteContext, new_metadata: CollectionMetadata) -> (outcome:
    Result<Response, ContractError>)
    ensures
        final(ctx).time == old(ctx).time,
        final(ctx).sender == old(ctx).sender,
        if old(ctx).authorized() {
            &&& outcome is Ok
            &&& outcome->Ok_0@ == seq![("action"@, "set_metadata"@)]
            &&& final(ctx).store@.metadata.same(new_metadata)
            &&& final(ctx).store@ == (
                StoreView { metadata: final(ctx).store@.metadata, ..old(ctx).store@ }
            )
        } else {
            final(ctx).store@ == old(ctx).store@ && outcome is Err && outcome->Err_0.says(
                ErrorKind::NotAuthorized,
                operator_required(),
            )
        },
{
    match ctx.require_operator() {
        Ok(()) => {},
        Err(error) => {
            return Err(error);
        },
    }
    match ctx.set_collection_metadata(&new_metadata) {
        Ok(()) => {
            let response = Response::new().add_attribute("action", "set_metadata");
            assert(response@ =~= seq![("action"@, "set_metadata"@)]);
            Ok(response)
        },
        Err(error) => Err(error),
    }
}

} // verus!
