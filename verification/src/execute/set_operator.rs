use vstd::prelude::*;
use crate::error::{ContractError, ErrorKind};
use crate::responses::Response;
use crate::state::{operator_required, ExecuteContext};
use crate::store::StoreView;

verus! {

/// Hands the collection to a new operator. Only the operator may.
/// `new_operator` is what the host's address validation made of the new
/// address: nothing where it refused, and then nothing changes.
pub fn exec_set_operator(ctx: &mut ExecuteContext, new_operator: Option<String>) -> (outcome:
    Result<Response, ContractError>)
    ensures
        final(ctx).time == old(ctx).time,
        final(ctx).sender == old(ctx).sender,
        if !old(ctx).authorized() {
            final(ctx).store@ == old(ctx).store@ && outcome is Err && outcome->Err_0.says(
                ErrorKind::NotAuthorized,
                operator_required(),
            )
        } else {
            match new_operator {
                Some(address) => {
                    &&& outcome is Ok
                    &&& outcome->Ok_0@ == seq![("action"@, "set_operator"@)]
                    &&& final(ctx).store@ == (
                        StoreView { operator: Some(address@), ..old(ctx).store@ }
                    )
                },
                None => final(ctx).store@ == old(ctx).store@ && outcome is Err
                    && outcome->Err_0.says(
                    ErrorKind::ValidationError,
                    "invalid new operator address"@,
                ),
            }
        },
{
    match ctx.require_operator() {
        Ok(()) => {},
        Err(error) => {
            return Err(error);
        },
    }
    match ctx.set_operator(new_operator) {
        Ok(()) => {
            let response = Response::new().add_attribute("action", "set_operator");
            assert(response@ =~= seq![("action"@, "set_operator"@)]);
            Ok(response)
        },
        Err(error) => Err(error),
    }
}

} // verus!
