//! The errors of the backend, and which of them are worth another try.

use crate::decimal::{decimal, push_decimal};
use rand::Rng;
use vstd::prelude::*;
use vstd::string::StringExecFns;

verus! {

/// What a failed SQLite call was about.
#[derive(Clone, Copy, Debug, PartialEq, Eq, Structural)]
pub enum ErrorCode {
    /// Another connection holds the lock.
    DatabaseBusy,
    /// Anything else.
    Other,
}

/// A failed SQLite call.
#[derive(Debug)]
pub struct SqliteFailure {
    pub code: ErrorCode,
    pub message: String,
}

/// An error of the backend.
#[derive(Debug)]
pub enum SqliteBackendError {
    SqliteError(SqliteFailure),
    GenericError(String),
    DatabaseClosed,
    WriteDisabled,
    UnknownValueEncoding(i64),
    TypeMismatch(String),
    SumOutOfRange,
}

/// What a `SqliteFailure` stands for.
pub struct Failure {
    pub code: ErrorCode,
    pub message: Seq<char>,
}

/// What a `SqliteBackendError` stands for.
pub enum Fault {
    Sqlite(Failure),
    Generic(Seq<char>),
    DatabaseClosed,
    WriteDisabled,
    UnknownValueEncoding(i64),
    TypeMismatch(Seq<char>),
    SumOutOfRange,
}

impl View for SqliteFailure {
    type V = Failure;

    open spec fn view(&self) -> Failure {
        Failure { code: self.code, message: self.message@ }
    }
}

impl View for SqliteBackendError {
    type V = Fault;

    open spec fn view(&self) -> Fault {
        match self {
            SqliteBackendError::SqliteError(e) => Fault::Sqlite(e@),
            SqliteBackendError::GenericError(text) => Fault::Generic(text@),
            SqliteBackendError::DatabaseClosed => Fault::DatabaseClosed,
            SqliteBackendError::WriteDisabled => Fault::WriteDisabled,
            SqliteBackendError::UnknownValueEncoding(n) => Fault::UnknownValueEncoding(*n),
            SqliteBackendError::TypeMismatch(text) => Fault::TypeMismatch(text@),
            SqliteBackendError::SumOutOfRange => Fault::SumOutOfRange,
        }
    }
}

/// The text by which an error is shown.
pub open spec fn fault_text(fault: Fault) -> Seq<char> {
    match fault {
        Fault::Sqlite(failure) => failure.message,
        Fault::Generic(text) => text,
        Fault::DatabaseClosed => "Database is closed."@,
        Fault::WriteDisabled => "Can not write to a read-only database."@,
        Fault::UnknownValueEncoding(n) => "The value encoding "@ + decimal(n as int)
            + " is unknown."@,
        Fault::TypeMismatch(text) => text,
        Fault::SumOutOfRange => "The result of a Sum operation would exceed its range limit"@,
    }
}

impl SqliteBackendError {
    /// The text by which the error is shown.
    pub fn message(&self) -> (text: String)
        ensures
            text@ == fault_text(self@),
    {
        match self {
            SqliteBackendError::SqliteError(e) => e.message.clone(),
            SqliteBackendError::GenericError(text) => text.clone(),
            SqliteBackendError::DatabaseClosed => "Database is closed.".to_owned(),
            SqliteBackendError::WriteDisabled => {
                "Can not write to a read-only database.".to_owned()
            },
            SqliteBackendError::UnknownValueEncoding(n) => {
                let mut text = "The value encoding ".to_owned();
                if *n < 0 {
                    text.append("-");
                    let magnitude: u64 = (-(*n + 1)) as u64 + 1;
                    push_decimal(&mut text, magnitude);
                } else {
                    push_decimal(&mut text, *n as u64);
                }
                assert(text@ =~= "The value encoding "@ + decimal(*n as int));
                text.append(" is unknown.");
                text
            },
            SqliteBackendError::TypeMismatch(text) => text.clone(),
            SqliteBackendError::SumOutOfRange => {
                "The result of a Sum operation would exceed its range limit".to_owned()
            },
        }
    }
}

/// How a transaction ends.
pub enum TxEnd<R> {
    /// Commit, and hand out the result if that succeeds.
    Commit(R),
    /// Roll back, and report the error.
    Rollback(SqliteBackendError),
}

/// How the transaction ends whose body returned `result`: it is committed
/// exactly where the body succeeded.
pub fn run_tx<R>(result: Result<R, SqliteBackendError>) -> (end: TxEnd<R>)
    ensures
        match result {
            Ok(value) => end == TxEnd::Commit(value),
            Err(e) => end == TxEnd::<R>::Rollback(e),
        },
{
    match result {
        Ok(value) => TxEnd::Commit(value),
        Err(e) => TxEnd::Rollback(e),
    }
}

/// What a transaction returns whose body succeeded with `value`, once the
/// commit has been tried.
pub fn after_commit<R>(value: R, commit: Result<(), SqliteFailure>) -> (outcome: Result<
    R,
    SqliteBackendError,
>)
    ensures
        match commit {
            Ok(_) => outcome == Ok::<R, SqliteBackendError>(value),
            Err(e) => outcome == Err::<R, SqliteBackendError>(SqliteBackendError::SqliteError(e)),
        },
{
    match commit {
        Ok(_) => Ok(value),
        Err(e) => Err(SqliteBackendError::SqliteError(e)),
    }
}

/// What the retry loop does next.
pub enum RetryStep<R> {
    /// Hand out the outcome.
    Return(Result<R, SqliteBackendError>),
    /// Sleep for so many milliseconds and try again.
    Retry { delay_ms: u64 },
}

/// Whether an outcome says that the database was busy.
pub open spec fn is_busy<R>(outcome: Result<R, SqliteBackendError>) -> bool {
    outcome matches Err(SqliteBackendError::SqliteError(e)) && e.code == ErrorCode::DatabaseBusy
}

/// The shortest pause before another try, in milliseconds.
pub const RETRY_DELAY_MIN_MS: u64 = 5;

/// The pause before another try is shorter than this, in milliseconds.
pub const RETRY_DELAY_END_MS: u64 = 20;

/// `rand::Rng::gen_range` on `rand::thread_rng()`: some number of the range
/// from `low` up to but not including `high`. Which one is left to chance.
#[verifier::external_body]
fn random_below(low: u64, high: u64) -> (n: u64)
    requires
        low < high,
    ensures
        low <= n < high,
{
    rand::thread_rng().gen_range(low..high)
}

/// One round of the retry loop: a busy database is tried again after a short
/// random pause, anything else is the outcome.
pub fn sqlite_retry_loop<R>(outcome: Result<R, SqliteBackendError>) -> (step: RetryStep<R>)
    ensures
        is_busy(outcome) ==> (step matches RetryStep::Retry { delay_ms } && RETRY_DELAY_MIN_MS
            <= delay_ms < RETRY_DELAY_END_MS),
        !is_busy(outcome) ==> step == RetryStep::Return(outcome),
{
    let busy = match &outcome {
        Err(SqliteBackendError::SqliteError(e)) => match e.code {
            ErrorCode::DatabaseBusy => true,
            ErrorCode::Other => false,
        },
        _ => false,
    };
    if busy {
        RetryStep::Retry { delay_ms: random_below(RETRY_DELAY_MIN_MS, RETRY_DELAY_END_MS) }
    } else {
        RetryStep::Return(outcome)
    }
}

} // verus!
