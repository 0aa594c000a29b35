use vstd::prelude::*;
use crate::error::{ContractError, ErrorKind};
use crate::execute::create::{plain, report, report_of};
use crate::msg::UpdateArgs;
use crate::responses::Response;
use crate::state::{operator_required, ExecuteContext};
use crate::store::{coherent, updated};

verus! {

/// What handling an update does: a caller who is not the operator is
/// refused and nothing changes; for the operator, what `updated` says of
/// the store, at the time of the context, and on success the report of it.
pub open spec fn update_handled(
    before: ExecuteContext,
    after: ExecuteContext,
    args: UpdateArgs,
    outcome: Result<Response, ContractError>,
) -> bool {
    &&& after.time == before.time
    &&& after.sender == before.sender
    &&& if before.authorized() {
        updated(
            before.store@,
            after.store@,
            args.id,
            args.data@,
            args.mode,
            before.time,
            plain(outcome),
        ) && (outcome is Ok ==> outcome->Ok_0@ == report("update"@, args.id))
    } else {
        after.store@ == before.store@ && outcome is Err && outcome->Err_0.says(
            ErrorKind::NotAuthorized,
            operator_required(),
        )
    }
}

/// Updates an entity. Only the operator may.
pub fn exec_update(ctx: &mut ExecuteContext, args: UpdateArgs) -> (outcome: Result<
    Response,
    ContractError,
>)
    ensures
        update_handled(*old(ctx), *final(ctx), args, outcome),
        coherent(final(ctx).store@),
{
    let id = args.id;
    match ctx.require_operator() {
        Ok(()) => {},
        Err(error) => {
            ctx.store.coherence();
            return Err(error);
        },
    }
    match ctx.update_entity(args) {
        Ok(()) => Ok(report_of("update", id)),
        Err(error) => Err(error),
    }
}

} // verus!
