//! Status codes, and the detail that travels with a status that is not OK.

use vstd::prelude::*;
use vstd::string::*;

verus! {

/// Success.
pub const OK: i32 = 0;

/// No entry for the requested key.
pub const NOT_FOUND: i32 = 1;

/// The database has been closed.
pub const DB_CLOSED: i32 = 2;

/// An optimistic transaction lost a commit-time validation race.
pub const TXN_CONFLICT: i32 = 3;

/// A write was attempted on a read-only transaction.
pub const READ_ONLY_TXN: i32 = 4;

/// The transaction has already been committed or discarded.
pub const DISCARDED: i32 = 5;

/// A null pointer or otherwise unusable argument.
pub const INVALID_ARG: i32 = 6;

/// A panic was caught at the boundary.
pub const PANIC: i32 = 7;

/// Anything else; the detail says what.
pub const OTHER: i32 = 8;

/// A status that is not OK on its way to the caller, with the detail the
/// code alone does not convey.
#[derive(Debug)]
pub struct Failure {
    pub status: i32,
    pub detail: Option<String>,
}

/// What a [`Failure`] says.
#[verifier::ext_equal]
pub struct FailureView {
    pub status: i32,
    pub detail: Option<Seq<char>>,
}

/// The text of an optional detail.
pub open spec fn detail_view(detail: Option<String>) -> Option<Seq<char>> {
    match detail {
        Some(text) => Some(text@),
        None => None,
    }
}

impl View for Failure {
    type V = FailureView;

    open spec fn view(&self) -> FailureView {
        FailureView { status: self.status, detail: detail_view(self.detail) }
    }
}

/// A status whose code is the whole message.
pub open spec fn bare(status: i32) -> FailureView {
    FailureView { status, detail: None }
}

/// [`INVALID_ARG`] with the reason.
pub open spec fn invalid(reason: Seq<char>) -> FailureView {
    FailureView { status: INVALID_ARG, detail: Some(reason) }
}

/// [`OTHER`] with the reason.
pub open spec fn unclassified(reason: Seq<char>) -> FailureView {
    FailureView { status: OTHER, detail: Some(reason) }
}

/// What an outcome says: its value as it is, its failure by what it says.
pub open spec fn said<T>(outcome: Result<T, Failure>) -> Result<T, FailureView> {
    match outcome {
        Ok(value) => Ok(value),
        Err(failure) => Err(failure@),
    }
}

impl Failure {
    /// A status whose code is the whole message.
    pub fn code(status: i32) -> (failure: Failure)
        ensures
            failure@ == bare(status),
    {
        Failure { status, detail: None }
    }

    /// [`INVALID_ARG`] with the reason.
    pub fn invalid_arg(detail: &str) -> (failure: Failure)
        ensures
            failure@ == invalid(detail@),
    {
        Failure { status: INVALID_ARG, detail: Some(detail.to_owned()) }
    }

    /// [`OTHER`] with the reason.
    pub fn other(detail: &str) -> (failure: Failure)
        ensures
            failure@ == unclassified(detail@),
    {
        Failure { status: OTHER, detail: Some(detail.to_owned()) }
    }
}

/// An engine error, told apart as far as the caller can tell.
#[derive(Debug)]
pub enum EngineError {
    /// The database has been closed.
    Closed,
    /// An argument was refused, for this reason.
    InvalidArgument(String),
    /// Anything else, as the engine words it.
    Unclassified(String),
}

/// A transaction error, told apart as far as the caller can tell. The texts
/// are the engine's own.
#[derive(Debug)]
pub enum TransactionError {
    /// Commit-time validation failed.
    Conflict,
    /// A key is locked by someone else.
    Busy,
    /// A range delete was asked of a transaction.
    UnsupportedRangeDelete(String),
    /// There is no savepoint to go back to.
    NoSavepoint(String),
    /// The store underneath failed.
    Io(String),
}

/// The status of an engine error, with its text only where the code does
/// not already say what happened. An argument's refusal keeps the reason
/// alone.
impl From<EngineError> for Failure {
    fn from(err: EngineError) -> (failure: Failure) {
        match err {
            EngineError::Closed => Failure { status: DB_CLOSED, detail: None },
            EngineError::InvalidArgument(reason) => Failure {
                status: INVALID_ARG,
                detail: Some(reason),
            },
            EngineError::Unclassified(text) => Failure { status: OTHER, detail: Some(text) },
        }
    }
}

impl vstd::std_specs::convert::FromSpecImpl<EngineError> for Failure {
    open spec fn obeys_from_spec() -> bool {
        true
    }

    open spec fn from_spec(err: EngineError) -> Failure {
        match err {
            EngineError::Closed => Failure { status: DB_CLOSED, detail: None },
            EngineError::InvalidArgument(reason) => Failure {
                status: INVALID_ARG,
                detail: Some(reason),
            },
            EngineError::Unclassified(text) => Failure { status: OTHER, detail: Some(text) },
        }
    }
}

/// The status of a transaction error. A conflict and a busy key are both
/// "someone else got there first", and the code is the whole message.
impl From<TransactionError> for Failure {
    fn from(err: TransactionError) -> (failure: Failure) {
        match err {
            TransactionError::Conflict => Failure { status: TXN_CONFLICT, detail: None },
            TransactionError::Busy => Failure { status: TXN_CONFLICT, detail: None },
            TransactionError::UnsupportedRangeDelete(text) => Failure {
                status: INVALID_ARG,
                detail: Some(text),
            },
            TransactionError::NoSavepoint(text) => Failure {
                status: INVALID_ARG,
                detail: Some(text),
            },
            TransactionError::Io(text) => Failure { status: OTHER, detail: Some(text) },
        }
    }
}

impl vstd::std_specs::convert::FromSpecImpl<TransactionError> for Failure {
    open spec fn obeys_from_spec() -> bool {
        true
    }

    open spec fn from_spec(err: TransactionError) -> Failure {
        match err {
            TransactionError::Conflict | TransactionError::Busy => Failure {
                status: TXN_CONFLICT,
                detail: None,
            },
            TransactionError::UnsupportedRangeDelete(text) => Failure {
                status: INVALID_ARG,
                detail: Some(text),
            },
            TransactionError::NoSavepoint(text) => Failure {
                status: INVALID_ARG,
                detail: Some(text),
            },
            TransactionError::Io(text) => Failure { status: OTHER, detail: Some(text) },
        }
    }
}

/// Does `failure` carry a detail only where its code does not say what
/// went wrong?
pub open spec fn detail_is_due(failure: FailureView) -> bool {
    failure.detail is Some ==> failure.status == INVALID_ARG || failure.status == PANIC
        || failure.status == OTHER
}

/// Whatever a failure is made from, only [`INVALID_ARG`], [`PANIC`] and
/// [`OTHER`] carry a detail; every other code is its own message.
pub proof fn law_only_three_codes_carry_a_detail(
    status: i32,
    reason: Seq<char>,
    engine: EngineError,
    transaction: TransactionError,
)
    ensures
        detail_is_due(bare(status)),
        detail_is_due(invalid(reason)),
        detail_is_due(unclassified(reason)),
        detail_is_due(
            <Failure as vstd::std_specs::convert::FromSpec<EngineError>>::from_spec(engine)@,
        ),
        detail_is_due(
            <Failure as vstd::std_specs::convert::FromSpec<TransactionError>>::from_spec(
                transaction,
            )@,
        ),
{
}

/// The numbers of the status codes are part of the interface.
pub proof fn law_status_codes()
    ensures
        OK == 0,
        NOT_FOUND == 1,
        DB_CLOSED == 2,
        TXN_CONFLICT == 3,
        READ_ONLY_TXN == 4,
        DISCARDED == 5,
        INVALID_ARG == 6,
        PANIC == 7,
        OTHER == 8,
{
}

/// A failure says its status and the text of its detail, whole, and what
/// has no failure is passed on as it is.
pub proof fn law_a_failure_is_what_it_says<T>(
    failure: Failure,
    status: i32,
    reason: Seq<char>,
    value: T,
)
    ensures
        failure@.status == failure.status,
        failure@.detail is Some <==> failure.detail is Some,
        failure.detail is Some ==> failure@.detail == Some(failure.detail->Some_0@),
        bare(status).status == status,
        bare(status).detail is None,
        invalid(reason).status == 6,
        invalid(reason).detail == Some(reason),
        unclassified(reason).status == 8,
        unclassified(reason).detail == Some(reason),
        said(Ok::<T, Failure>(value)) == Ok::<T, FailureView>(value),
        said(Err::<T, Failure>(failure)) == Err::<T, FailureView>(failure@),
{
}

/// Every kind of engine error has its code, and keeps its text where the
/// code does not say what happened.
pub proof fn law_engine_errors_map(text: String)
    ensures
        <Failure as vstd::std_specs::convert::FromSpec<EngineError>>::obeys_from_spec(),
        ({
            let closed_err = <Failure as vstd::std_specs::convert::FromSpec<
                EngineError,
            >>::from_spec(EngineError::Closed);
            closed_err.status == 2 && closed_err.detail is None
        }),
        ({
            let refused = <Failure as vstd::std_specs::convert::FromSpec<EngineError>>::from_spec(
                EngineError::InvalidArgument(text),
            );
            refused.status == 6 && refused.detail == Some(text)
        }),
        ({
            let other = <Failure as vstd::std_specs::convert::FromSpec<EngineError>>::from_spec(
                EngineError::Unclassified(text),
            );
            other.status == 8 && other.detail == Some(text)
        }),
{
}

/// As [`law_engine_errors_map`], for the errors of a transaction.
pub proof fn law_transaction_errors_map(text: String)
    ensures
        <Failure as vstd::std_specs::convert::FromSpec<TransactionError>>::obeys_from_spec(),
        ({
            let lost = <Failure as vstd::std_specs::convert::FromSpec<
                TransactionError,
            >>::from_spec(TransactionError::Conflict);
            lost.status == 3 && lost.detail is None
        }),
        ({
            let busy = <Failure as vstd::std_specs::convert::FromSpec<
                TransactionError,
            >>::from_spec(TransactionError::Busy);
            busy.status == 3 && busy.detail is None
        }),
        ({
            let refused = <Failure as vstd::std_specs::convert::FromSpec<
                TransactionError,
            >>::from_spec(TransactionError::UnsupportedRangeDelete(text));
            refused.status == 6 && refused.detail == Some(text)
        }),
        ({
            let nowhere = <Failure as vstd::std_specs::convert::FromSpec<
                TransactionError,
            >>::from_spec(TransactionError::NoSavepoint(text));
            nowhere.status == 6 && nowhere.detail == Some(text)
        }),
        ({
            let broken = <Failure as vstd::std_specs::convert::FromSpec<
                TransactionError,
            >>::from_spec(TransactionError::Io(text));
            broken.status == 8 && broken.detail == Some(text)
        }),
{
}

} // verus!
