use vstd::prelude::*;
use vstd::string::*;
use crate::error::ContractError;
use crate::msg::CreateArgs;
use crate::responses::Response;
use crate::state::ExecuteContext;
use crate::store::{coherent, created};
use crate::text::{decimal, decimal_text};

verus! {

/// The outcome of a handler without its response.
pub open spec fn plain(outcome: Result<Response, ContractError>) -> Result<(), ContractError> {
    match outcome {
        Ok(_) => Ok(()),
        Err(error) => Err(error),
    }
}

/// What a handler reports of a change to the entity `id`.
pub open spec fn report(action: Seq<char>, id: u64) -> Seq<(Seq<char>, Seq<char>)> {
    seq![("action"@, action), ("id"@, decimal(id as nat))]
}

pub fn report_of(action: &str, id: u64) -> (response: Response)
    ensures
        response@ == report(action@, id),
{
    let response = Response::new().add_attribute("action", action).add_attribute(
        "id",
        decimal_text(id as u128).as_str(),
    );
    assert(response@ =~= report(action@, id));
    response
}

/// What handling a create does: what `created` says of the store, at the
/// time of the context, and on success the report of it.
pub open spec fn create_handled(
    before: ExecuteContext,
    after: ExecuteContext,
    args: CreateArgs,
    outcome: Result<Response, ContractError>,
) -> bool {
    &&& after.time == before.time
    &&& after.sender == before.sender
    &&& created(before.store@, after.store@, args.id, args.data@, before.time, plain(outcome))
    &&& outcome is Ok ==> outcome->Ok_0@ == report("create"@, args.id)
}

/// Creates an entity. Any caller may.
pub fn exec_create(ctx: &mut ExecuteContext, args: CreateArgs) -> (outcome: Result<
    Response,
    ContractError,
>)
    ensures
        create_handled(*old(ctx), *final(ctx), args, outcome),
        coherent(final(ctx).store@),
{
    let id = args.id;
    match ctx.create_entity(args) {
        Ok(()) => Ok(report_of("create", id)),
        Err(error) => Err(error),
    }
}

} // verus!
