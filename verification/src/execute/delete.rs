use vstd::prelude::*;
use crate::error::{ContractError, ErrorKind};
use crate::execute::create::{plain, report, report_of};
use crate::msg::DeleteArgs;
use crate::responses::Response;
use crate::state::{operator_required, ExecuteContext};
use crate::store::{coherent, deleted};

verus! {

/// What handling a delete does: a caller who is not the operator is
/// refused and nothing changes; for the operator, what `deleted` says of
/// the store, and on success the report of it.
pub open spec fn delete_handled(
    before: ExecuteContext,
    after: ExecuteContext,
    args: DeleteArgs,
    outcome: Result<Response, ContractError>,
) -> bool {
    &&& after.time == before.time
    &&& after.sender == before.sender
    &&& if before.authorized() {
        deleted(before.store@, after.store@, args.id, plain(outcome)) && (outcome is Ok
            ==> outcome->Ok_0@ == report("delete"@, args.id))
    } else {
        after.store@ == before.store@ && outcome is Err && outcome->Err_0.says(
            ErrorKind::NotAuthorized,
            operator_required(),
        )
    }
}

/// Deletes an entity. Only the operator may.
pub fn exec_delete(ctx: &mut ExecuteContext, args: DeleteArgs) -> (outcome: Result<
    Response,
    ContractError,
>)
    ensures
        delete_handled(*old(ctx), *final(ctx), args, outcome),
        coherent(final(ctx).store@),
{
    let id = args.id;
    match ctx.require_operator() {
        Ok(()) => {},
        Err(error) => {
            ctx.store.coherence();
            return Err(error);
        },
    }
    match ctx.delete_entity(args) {
        Ok(()) => Ok(report_of("delete", id)),
        Err(error) => Err(error),
    }
}

} // verus!
