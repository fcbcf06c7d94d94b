//! What a task asks of the world, one request at a time, and what it is told.

use crate::error::{Failure, Fault, SqliteBackendError, SqliteFailure};
use crate::sum::{limit_view, NumberSum, Operand, SumOperand};
use crate::value::{KvValue, Value};
use crate::views::{opt_view, result_view, seq_view};
use vstd::prelude::*;

verus! {

/// An integer parameter of a statement.
#[derive(Clone, Copy, Debug, PartialEq, Eq, Structural)]
pub enum SqlInteger {
    Signed(i64),
    Unsigned(u64),
}

/// A message of the queue, as its row holds it. `ts` is the time at which it is
/// due, or the deadline where it is running.
#[derive(Debug, PartialEq, Eq)]
pub struct QueuedMessage {
    pub ts: u64,
    pub id: String,
    pub data: Vec<u8>,
    pub backoff_schedule: String,
    pub keys_if_undelivered: String,
}

/// What a `QueuedMessage` stands for.
pub struct Message {
    pub ts: u64,
    pub id: Seq<char>,
    pub data: Seq<u8>,
    pub backoff_schedule: Seq<char>,
    pub keys_if_undelivered: Seq<char>,
}

impl View for QueuedMessage {
    type V = Message;

    open spec fn view(&self) -> Message {
        Message {
            ts: self.ts,
            id: self.id@,
            data: self.data@,
            backoff_schedule: self.backoff_schedule@,
            keys_if_undelivered: self.keys_if_undelivered@,
        }
    }
}

/// A row that a range scan reads.
#[derive(Debug, PartialEq, Eq)]
pub struct KvRow {
    pub key: Vec<u8>,
    pub value: Vec<u8>,
    pub encoding: i64,
    pub version: i64,
}

/// What a `KvRow` stands for.
pub struct Row {
    pub key: Seq<u8>,
    pub value: Seq<u8>,
    pub encoding: i64,
    pub version: i64,
}

impl View for KvRow {
    type V = Row;

    open spec fn view(&self) -> Row {
        Row {
            key: self.key@,
            value: self.value@,
            encoding: self.encoding,
            version: self.version,
        }
    }
}

/// A statement to run in the open transaction. Each comes with its parameters,
/// in the order of the placeholders of its text.
#[derive(Debug, PartialEq, Eq)]
#[allow(inconsistent_fields)]
pub enum Statement {
    IncrementDataVersion { increment: i64 },
    GetDataVersion,
    ScanRange { start: Vec<u8>, end: Vec<u8>, limit: u32, reverse: bool },
    GetValue { key: Vec<u8> },
    GetVersion { key: Vec<u8> },
    SetRow { key: Vec<u8>, value: Vec<u8>, encoding: i64, version: i64, expiration_ms: i64 },
    DeleteRow { key: Vec<u8> },
    DeleteExpired { now_ms: i64 },
    EarliestExpiration,
    AddReady {
        ts: SqlInteger,
        id: String,
        data: Vec<u8>,
        backoff_schedule: String,
        keys_if_undelivered: String,
    },
    NextReady { now_ms: u64 },
    EarliestReady,
    RemoveReady { id: String },
    AddRunning {
        deadline: u64,
        id: String,
        data: Vec<u8>,
        backoff_schedule: String,
        keys_if_undelivered: String,
    },
    UpdateDeadline { deadline: u64, id: String },
    RemoveRunning { id: String },
    RunningById { id: String },
    RunningPastDeadline { now_ms: i64 },
    CreateMigrationTable,
    GetMigrationVersion,
    RunMigration { index: usize },
    SaveMigrationVersion { version: usize },
}

/// What a `Statement` stands for.
#[allow(inconsistent_fields)]
pub enum Sql {
    IncrementDataVersion { increment: i64 },
    GetDataVersion,
    ScanRange { start: Seq<u8>, end: Seq<u8>, limit: u32, reverse: bool },
    GetValue { key: Seq<u8> },
    GetVersion { key: Seq<u8> },
    SetRow { key: Seq<u8>, value: Seq<u8>, encoding: i64, version: i64, expiration_ms: i64 },
    DeleteRow { key: Seq<u8> },
    DeleteExpired { now_ms: i64 },
    EarliestExpiration,
    AddReady {
        ts: SqlInteger,
        id: Seq<char>,
        data: Seq<u8>,
        backoff_schedule: Seq<char>,
        keys_if_undelivered: Seq<char>,
    },
    NextReady { now_ms: u64 },
    EarliestReady,
    RemoveReady { id: Seq<char> },
    AddRunning {
        deadline: u64,
        id: Seq<char>,
        data: Seq<u8>,
        backoff_schedule: Seq<char>,
        keys_if_undelivered: Seq<char>,
    },
    UpdateDeadline { deadline: u64, id: Seq<char> },
    RemoveRunning { id: Seq<char> },
    RunningById { id: Seq<char> },
    RunningPastDeadline { now_ms: i64 },
    CreateMigrationTable,
    GetMigrationVersion,
    RunMigration { index: usize },
    SaveMigrationVersion { version: usize },
}

impl View for Statement {
    type V = Sql;

    open spec fn view(&self) -> Sql {
        match self {
            Statement::IncrementDataVersion { increment } => Sql::IncrementDataVersion {
                increment: *increment,
            },
            Statement::GetDataVersion => Sql::GetDataVersion,
            Statement::ScanRange { start, end, limit, reverse } => Sql::ScanRange {
                start: start@,
                end: end@,
                limit: *limit,
                reverse: *reverse,
            },
            Statement::GetValue { key } => Sql::GetValue { key: key@ },
            Statement::GetVersion { key } => Sql::GetVersion { key: key@ },
            Statement::SetRow { key, value, encoding, version, expiration_ms } => Sql::SetRow {
                key: key@,
                value: value@,
                encoding: *encoding,
                version: *version,
                expiration_ms: *expiration_ms,
            },
            Statement::DeleteRow { key } => Sql::DeleteRow { key: key@ },
            Statement::DeleteExpired { now_ms } => Sql::DeleteExpired { now_ms: *now_ms },
            Statement::EarliestExpiration => Sql::EarliestExpiration,
            Statement::AddReady { ts, id, data, backoff_schedule, keys_if_undelivered } =>
            Sql::AddReady {
                ts: *ts,
                id: id@,
                data: data@,
                backoff_schedule: backoff_schedule@,
                keys_if_undelivered: keys_if_undelivered@,
            },
            Statement::NextReady { now_ms } => Sql::NextReady { now_ms: *now_ms },
            Statement::EarliestReady => Sql::EarliestReady,
            Statement::RemoveReady { id } => Sql::RemoveReady { id: id@ },
            Statement::AddRunning { deadline, id, data, backoff_schedule, keys_if_undelivered } =>
            Sql::AddRunning {
                deadline: *deadline,
                id: id@,
                data: data@,
                backoff_schedule: backoff_schedule@,
                keys_if_undelivered: keys_if_undelivered@,
            },
            Statement::UpdateDeadline { deadline, id } => Sql::UpdateDeadline {
                deadline: *deadline,
                id: id@,
            },
            Statement::RemoveRunning { id } => Sql::RemoveRunning { id: id@ },
            Statement::RunningById { id } => Sql::RunningById { id: id@ },
            Statement::RunningPastDeadline { now_ms } => Sql::RunningPastDeadline {
                now_ms: *now_ms,
            },
            Statement::CreateMigrationTable => Sql::CreateMigrationTable,
            Statement::GetMigrationVersion => Sql::GetMigrationVersion,
            Statement::RunMigration { index } => Sql::RunMigration { index: *index },
            Statement::SaveMigrationVersion { version } => Sql::SaveMigrationVersion {
                version: *version,
            },
        }
    }
}

/// What a task asks for.
#[derive(Debug, PartialEq, Eq)]
#[allow(inconsistent_fields)]
pub enum Request {
    /// Run a statement.
    Sql(Statement),
    /// Draw a random number of the range from `low` up to but not including
    /// `high`.
    DrawNumber { low: i64, high: i64 },
    /// Read the operand of a sum, and its limits, of which an empty one is none.
    ReadSum { operand: KvValue, min_v8: Vec<u8>, max_v8: Vec<u8> },
    /// Read a stored value as an operand of a sum.
    ReadStored { value: KvValue },
    /// Add two doubles, and compare the sum with the limits.
    AddNumbers { current: u64, operand: u64, min: Option<u64>, max: Option<u64> },
    /// Write an operand of a sum as a value.
    WriteSum { operand: SumOperand },
    /// Tell those who wait for messages that one may be due.
    ScheduleDequeue,
}

/// What a `Request` stands for.
#[allow(inconsistent_fields)]
pub enum Action {
    Sql(Sql),
    DrawNumber { low: i64, high: i64 },
    ReadSum { operand: Value, min_v8: Seq<u8>, max_v8: Seq<u8> },
    ReadStored { value: Value },
    AddNumbers { current: u64, operand: u64, min: Option<u64>, max: Option<u64> },
    WriteSum { operand: Operand },
    ScheduleDequeue,
}

impl View for Request {
    type V = Action;

    open spec fn view(&self) -> Action {
        match self {
            Request::Sql(statement) => Action::Sql(statement@),
            Request::DrawNumber { low, high } => Action::DrawNumber { low: *low, high: *high },
            Request::ReadSum { operand, min_v8, max_v8 } => Action::ReadSum {
                operand: operand@,
                min_v8: min_v8@,
                max_v8: max_v8@,
            },
            Request::ReadStored { value } => Action::ReadStored { value: value@ },
            Request::AddNumbers { current, operand, min, max } => Action::AddNumbers {
                current: *current,
                operand: *operand,
                min: *min,
                max: *max,
            },
            Request::WriteSum { operand } => Action::WriteSum { operand: operand@ },
            Request::ScheduleDequeue => Action::ScheduleDequeue,
        }
    }
}

/// What a task is told.
#[derive(Debug)]
pub enum Reply {
    /// Nothing yet: the task begins.
    Begin,
    /// The statement failed.
    Failed(SqliteFailure),
    /// A request without an answer was carried out.
    Performed,
    /// So many rows changed.
    Changed(usize),
    /// A version number.
    Version(i64),
    /// The version of a row, if there is one.
    RowVersion(Option<i64>),
    /// The value of a row and its encoding, if there is one.
    RowValue(Option<(Vec<u8>, i64)>),
    /// Rows, up to the first that could not be read.
    Rows(Vec<KvRow>, Option<SqliteFailure>),
    /// Keys.
    Keys(Vec<Vec<u8>>),
    /// Names of messages.
    Ids(Vec<String>),
    /// A message, if there is one.
    Message(Option<QueuedMessage>),
    /// A time, if there is one.
    Time(Option<u64>),
    /// The version of the schema, if there is one.
    SchemaVersion(Option<usize>),
    /// A random number.
    Drawn(i64),
    /// The operand of a sum and its limits, or why they could not be read.
    SumRead {
        operand: Result<SumOperand, String>,
        min: Result<Option<SumOperand>, String>,
        max: Result<Option<SumOperand>, String>,
    },
    /// A stored value as an operand, or why it could not be read.
    StoredRead(Result<SumOperand, String>),
    /// A sum of doubles.
    NumbersAdded(NumberSum),
    /// An operand as a value.
    SumWritten(KvValue),
}

/// What a `Reply` stands for.
pub enum Answer {
    Begin,
    Failed(Failure),
    Performed,
    Changed(usize),
    Version(i64),
    RowVersion(Option<i64>),
    RowValue(Option<(Seq<u8>, i64)>),
    Rows(Seq<Row>, Option<Failure>),
    Keys(Seq<Seq<u8>>),
    Ids(Seq<Seq<char>>),
    Message(Option<Message>),
    Time(Option<u64>),
    SchemaVersion(Option<usize>),
    Drawn(i64),
    SumRead {
        operand: Result<Operand, Seq<char>>,
        min: Result<Option<Operand>, Seq<char>>,
        max: Result<Option<Operand>, Seq<char>>,
    },
    StoredRead(Result<Operand, Seq<char>>),
    NumbersAdded(NumberSum),
    SumWritten(Value),
}

impl View for Reply {
    type V = Answer;

    open spec fn view(&self) -> Answer {
        match self {
            Reply::Begin => Answer::Begin,
            Reply::Failed(e) => Answer::Failed(e@),
            Reply::Performed => Answer::Performed,
            Reply::Changed(n) => Answer::Changed(*n),
            Reply::Version(version) => Answer::Version(*version),
            Reply::RowVersion(version) => Answer::RowVersion(*version),
            Reply::RowValue(Some((value, encoding))) => Answer::RowValue(Some((value@, *encoding))),
            Reply::RowValue(None) => Answer::RowValue(None),
            Reply::Rows(rows, failure) => Answer::Rows(seq_view(rows@), opt_view(*failure)),
            Reply::Keys(keys) => Answer::Keys(seq_view(keys@)),
            Reply::Ids(ids) => Answer::Ids(seq_view(ids@)),
            Reply::Message(message) => Answer::Message(opt_view(*message)),
            Reply::Time(ms) => Answer::Time(*ms),
            Reply::SchemaVersion(version) => Answer::SchemaVersion(*version),
            Reply::Drawn(n) => Answer::Drawn(*n),
            Reply::SumRead { operand, min, max } => Answer::SumRead {
                operand: result_view(*operand),
                min: limit_view(*min),
                max: limit_view(*max),
            },
            Reply::StoredRead(operand) => Answer::StoredRead(result_view(*operand)),
            Reply::NumbersAdded(sum) => Answer::NumbersAdded(*sum),
            Reply::SumWritten(value) => Answer::SumWritten(value@),
        }
    }
}

/// What a task does next.
pub enum Step<T> {
    /// It asks for something, and goes on with the reply.
    Ask(Request),
    /// It is done.
    Done(Result<T, SqliteBackendError>),
    /// It cannot go on: a time lies outside of the range of the clock.
    ClockOverflow,
}

/// What a `Step` stands for.
pub enum Move<V> {
    Ask(Action),
    Done(Result<V, Fault>),
    ClockOverflow,
}

impl<T: View> View for Step<T> {
    type V = Move<T::V>;

    open spec fn view(&self) -> Move<T::V> {
        match self {
            Step::Ask(request) => Move::Ask(request@),
            Step::Done(result) => Move::Done(result_view(*result)),
            Step::ClockOverflow => Move::ClockOverflow,
        }
    }
}

/// What a failed statement comes to: the end of the task.
pub open spec fn failed<V>(failure: Failure) -> Move<V> {
    Move::Done(Err(Fault::Sqlite(failure)))
}

/// The move that asks for a statement.
pub open spec fn ask<V>(sql: Sql) -> Move<V> {
    Move::Ask(Action::Sql(sql))
}

} // verus!
