//! The entry points: setting a collection up, and routing a message to
//! its handler.

use vstd::prelude::*;
use crate::error::ContractError;
use crate::execute::create::{create_handled, exec_create};
use crate::execute::delete::{delete_handled, exec_delete};
use crate::execute::update::{exec_update, update_handled};
use crate::msg::{ExecuteMsg, InstantiateMsg, MigrateMsg, QueryMsg};
use crate::query::info::{informs, query_info};
use crate::query::read::{answers, query_read};
use crate::responses::{InfoResponse, ReadResponse};
use crate::responses::Response;
use crate::state::{ExecuteContext, QueryContext};
use crate::store::coherent;

verus! {

/// Sets the collection up.
pub fn instantiate(ctx: &mut ExecuteContext, msg: InstantiateMsg) -> (outcome: Result<
    Response,
    ContractError,
>)
    ensures
        ExecuteContext::set_up(*old(ctx), *final(ctx), msg, outcome),
{
    ctx.instantiate(msg)
}

/// What `execute` does with a message: what the handler of its kind does.
pub open spec fn routed(
    before: ExecuteContext,
    after: ExecuteContext,
    msg: ExecuteMsg,
    outcome: Result<Response, ContractError>,
) -> bool {
    match msg {
        ExecuteMsg::Create(args) => create_handled(before, after, args, outcome),
        ExecuteMsg::Update(args) => update_handled(before, after, args, outcome),
        ExecuteMsg::Delete(args) => delete_handled(before, after, args, outcome),
    }
}

/// Routes a message to its handler.
pub fn execute(ctx: &mut ExecuteContext, msg: ExecuteMsg) -> (outcome: Result<
    Response,
    ContractError,
>)
    ensures
        routed(*old(ctx), *final(ctx), msg, outcome),
        coherent(final(ctx).store@),
{
    match msg {
        ExecuteMsg::Create(args) => exec_create(ctx, args),
        ExecuteMsg::Update(args) => exec_update(ctx, args),
        ExecuteMsg::Delete(args) => exec_delete(ctx, args),
    }
}

/// The answer to a query, before it is put on the wire.
#[derive(Debug)]
pub enum Answer {
    Info(InfoResponse),
    Read(ReadResponse),
}

/// Routes a query to its handler.
pub fn query(ctx: QueryContext, msg: QueryMsg) -> (outcome: Result<Answer, ContractError>)
    ensures
        match msg {
            QueryMsg::Read(args) => match outcome {
                Ok(Answer::Read(response)) => answers(ctx.store@, args, Ok(response)),
                Ok(Answer::Info(_)) => false,
                Err(error) => answers(ctx.store@, args, Err(error)),
            },
            QueryMsg::Info {  } => match outcome {
                Ok(Answer::Info(info)) => informs(ctx.store@, Ok(info)),
                Ok(Answer::Read(_)) => false,
                Err(error) => informs(ctx.store@, Err(error)),
            },
        },
{
    match msg {
        QueryMsg::Info {  } => match query_info(ctx) {
            Ok(info) => Ok(Answer::Info(info)),
            Err(error) => Err(error),
        },
        QueryMsg::Read(args) => match query_read(ctx, args) {
            Ok(response) => Ok(Answer::Read(response)),
            Err(error) => Err(error),
        },
    }
}

/// Moving to a new version changes nothing in the store and reports
/// nothing.
pub fn migrate(msg: MigrateMsg) -> (outcome: Result<Response, ContractError>)
    ensures
        outcome is Ok,
        outcome->Ok_0@.len() == 0,
{
    Ok(Response::new())
}

} // verus!
