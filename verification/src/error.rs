//! The errors that operations on the ledger end with.
use vstd::prelude::*;

verus! {

/// An error of the hosting runtime's general kind: a failed identity
/// resolution handed in by the caller, or a record that a query did not find.
#[derive(Debug, PartialEq, Eq)]
pub enum StdError {
    GenericErr { msg: String },
    NotFound { kind: String },
}

/// What a [`StdError`] holds, as contracts speak of it.
pub enum StdErrorView {
    GenericErr { msg: Seq<char> },
    NotFound { kind: Seq<char> },
}

impl View for StdError {
    type V = StdErrorView;

    open spec fn view(&self) -> StdErrorView {
        match *self {
            StdError::GenericErr { msg } => StdErrorView::GenericErr { msg: msg@ },
            StdError::NotFound { kind } => StdErrorView::NotFound { kind: kind@ },
        }
    }
}

impl StdError {
    /// A second copy of the error.
    pub fn duplicate(&self) -> (c: Self)
        ensures
            c@ == self@,
    {
        match self {
            StdError::GenericErr { msg } => StdError::GenericErr { msg: msg.clone() },
            StdError::NotFound { kind } => StdError::NotFound { kind: kind.clone() },
        }
    }

    /// A general error with the message `msg`.
    pub fn generic_err(msg: &str) -> (e: Self)
        ensures
            e@ == (StdErrorView::GenericErr { msg: msg@ }),
    {
        StdError::GenericErr { msg: String::from_str(msg) }
    }

    /// The error of a record of kind `kind` that was not found.
    pub fn not_found(kind: &str) -> (e: Self)
        ensures
            e@ == (StdErrorView::NotFound { kind: kind@ }),
    {
        StdError::NotFound { kind: String::from_str(kind) }
    }
}

/// Why an operation on the ledger was rejected.
#[derive(Debug, PartialEq, Eq)]
pub enum ContractError {
    Std(StdError),
    Unauthorized {  },
    GroupNotFound {  },
    ExpenseNotFound {  },
    InvalidGroupName { reason: String },
    InvalidExpenseDescription { reason: String },
    InvalidAmount { reason: String },
    UserNotInGroup {  },
    UserAlreadyInGroup {  },
    InsufficientFunds { needed: String, available: String },
    NoDebtExists {  },
    InvalidPayment {  },
    CannotSettleWithSelf {  },
    CustomError { val: String },
}

/// What a [`ContractError`] holds, as contracts speak of it.
pub enum ErrorView {
    Std(StdErrorView),
    Unauthorized,
    GroupNotFound,
    ExpenseNotFound,
    InvalidGroupName { reason: Seq<char> },
    InvalidExpenseDescription { reason: Seq<char> },
    InvalidAmount { reason: Seq<char> },
    UserNotInGroup,
    UserAlreadyInGroup,
    InsufficientFunds { needed: Seq<char>, available: Seq<char> },
    NoDebtExists,
    InvalidPayment,
    CannotSettleWithSelf,
    CustomError { val: Seq<char> },
}

impl View for ContractError {
    type V = ErrorView;

    open spec fn view(&self) -> ErrorView {
        match *self {
            ContractError::Std(e) => ErrorView::Std(e@),
            ContractError::Unauthorized {  } => ErrorView::Unauthorized,
            ContractError::GroupNotFound {  } => ErrorView::GroupNotFound,
            ContractError::ExpenseNotFound {  } => ErrorView::ExpenseNotFound,
            ContractError::InvalidGroupName { reason } => ErrorView::InvalidGroupName {
                reason: reason@,
            },
            ContractError::InvalidExpenseDescription {
                reason,
            } => ErrorView::InvalidExpenseDescription { reason: reason@ },
            ContractError::InvalidAmount { reason } => ErrorView::InvalidAmount { reason: reason@ },
            ContractError::UserNotInGroup {  } => ErrorView::UserNotInGroup,
            ContractError::UserAlreadyInGroup {  } => ErrorView::UserAlreadyInGroup,
            ContractError::InsufficientFunds { needed, available } => ErrorView::InsufficientFunds {
                needed: needed@,
                available: available@,
            },
            ContractError::NoDebtExists {  } => ErrorView::NoDebtExists,
            ContractError::InvalidPayment {  } => ErrorView::InvalidPayment,
            ContractError::CannotSettleWithSelf {  } => ErrorView::CannotSettleWithSelf,
            ContractError::CustomError { val } => ErrorView::CustomError { val: val@ },
        }
    }
}

} // verus!
