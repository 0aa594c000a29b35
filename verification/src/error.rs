//! The errors that the store's operations return.

use vstd::prelude::*;

verus! {

/// Why an operation failed. `reason` names the field or id at fault.
#[derive(Debug)]
pub enum ContractError {
    /// The caller is not the operator, or the id to create exists already.
    NotAuthorized { reason: String },
    /// The id that the operation names holds no entity.
    NotFound { reason: String },
    /// A document, a query bound or a cursor does not fit the schema.
    ValidationError { reason: String },
    /// The store itself is out of order, or a document is no object.
    Unexpected { reason: String },
}

/// The four kinds of failure.
#[derive(PartialEq, Eq, Structural, Clone, Copy, Debug)]
pub enum ErrorKind {
    NotAuthorized,
    NotFound,
    ValidationError,
    Unexpected,
}

impl ContractError {
    pub open spec fn spec_kind(&self) -> ErrorKind {
        match *self {
            ContractError::NotAuthorized { .. } => ErrorKind::NotAuthorized,
            ContractError::NotFound { .. } => ErrorKind::NotFound,
            ContractError::ValidationError { .. } => ErrorKind::ValidationError,
            ContractError::Unexpected { .. } => ErrorKind::Unexpected,
        }
    }

    pub open spec fn spec_reason(&self) -> Seq<char> {
        match *self {
            ContractError::NotAuthorized { reason } => reason@,
            ContractError::NotFound { reason } => reason@,
            ContractError::ValidationError { reason } => reason@,
            ContractError::Unexpected { reason } => reason@,
        }
    }

    /// The error is of this kind and gives this reason.
    pub open spec fn says(&self, kind: ErrorKind, reason: Seq<char>) -> bool {
        self.spec_kind() == kind && self.spec_reason() == reason
    }

    /// Which kind of failure this is.
    #[verifier::when_used_as_spec(spec_kind)]
    pub fn kind(&self) -> (kind: ErrorKind)
        ensures
            kind == self.spec_kind(),
    {
        match self {
            ContractError::NotAuthorized { .. } => ErrorKind::NotAuthorized,
            ContractError::NotFound { .. } => ErrorKind::NotFound,
            ContractError::ValidationError { .. } => ErrorKind::ValidationError,
            ContractError::Unexpected { .. } => ErrorKind::Unexpected,
        }
    }

    /// The reason given.
    pub fn reason(&self) -> (reason: &String)
        ensures
            reason@ == self.spec_reason(),
    {
        match self {
            ContractError::NotAuthorized { reason } => reason,
            ContractError::NotFound { reason } => reason,
            ContractError::ValidationError { reason } => reason,
            ContractError::Unexpected { reason } => reason,
        }
    }
}

} // verus!
