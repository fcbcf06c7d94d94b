//! How the statements and the errors are worded.

use crate::decimal::decimal_digits;
use crate::error::{
    fault_text, is_busy, Failure, Fault, SqliteBackendError, RETRY_DELAY_END_MS, RETRY_DELAY_MIN_MS,
};
use crate::request::{Sql, SqlInteger};
use crate::schema::MIGRATION_COUNT;
use crate::sql::sql_text;
use vstd::prelude::*;

verus! {

/// The statements on values read and write the rows of just the keys, or the times,
/// that they are given, and the data version grows by what it is given.
pub proof fn statements_on_values_are_worded_so(
    key: Seq<u8>,
    value: Seq<u8>,
    other: Seq<u8>,
    a: i64,
    b: i64,
    c: i64,
    limit: u32,
)
    ensures
        sql_text(Sql::IncrementDataVersion { increment: a })
            == "update data_version set version = version + ? where k = 0 returning version"@,
        sql_text(Sql::GetDataVersion) == "select version from data_version where k = 0"@,
        sql_text(Sql::ScanRange { start: key, end: other, limit, reverse: true })
            == "select k, v, v_encoding, version from kv where k >= ? and k < ? order by k desc limit ?"@,
        sql_text(Sql::ScanRange { start: key, end: other, limit, reverse: false })
            == "select k, v, v_encoding, version from kv where k >= ? and k < ? order by k asc limit ?"@,
        sql_text(Sql::GetValue { key }) == "select v, v_encoding from kv where k = ?"@,
        sql_text(Sql::GetVersion { key }) == "select version from kv where k = ?"@,
        sql_text(Sql::SetRow { key, value, encoding: a, version: b, expiration_ms: c })
            == "insert into kv (k, v, v_encoding, version, expiration_ms) values (:k, :v, :v_encoding, :version, :expiration_ms) on conflict(k) do update set v = :v, v_encoding = :v_encoding, version = :version, expiration_ms = :expiration_ms"@,
        sql_text(Sql::DeleteRow { key }) == "delete from kv where k = ?"@,
        sql_text(Sql::DeleteExpired { now_ms: a })
            == "delete from kv where expiration_ms >= 0 and expiration_ms <= ? returning k"@,
        sql_text(Sql::EarliestExpiration)
            == "select expiration_ms from kv where expiration_ms >= 0 order by expiration_ms limit 1"@,
{
}

/// The statements on messages read and write the rows of just the names, or the
/// times, that they are given.
pub proof fn statements_on_messages_are_worded_so(
    ts: SqlInteger,
    id: Seq<char>,
    data: Seq<u8>,
    backoff_schedule: Seq<char>,
    keys_if_undelivered: Seq<char>,
    a: u64,
    b: i64,
)
    ensures
        sql_text(Sql::AddReady { ts, id, data, backoff_schedule, keys_if_undelivered })
            == "insert into queue (ts, id, data, backoff_schedule, keys_if_undelivered) values(?, ?, ?, ?, ?)"@,
        sql_text(Sql::NextReady { now_ms: a })
            == "select ts, id, data, backoff_schedule, keys_if_undelivered from queue where ts <= ? order by ts limit 1"@,
        sql_text(Sql::EarliestReady) == "select ts from queue order by ts limit 1"@,
        sql_text(Sql::RemoveReady { id }) == "delete from queue where id = ?"@,
        sql_text(Sql::AddRunning { deadline: a, id, data, backoff_schedule, keys_if_undelivered })
            == "insert into queue_running (deadline, id, data, backoff_schedule, keys_if_undelivered) values(?, ?, ?, ?, ?)"@,
        sql_text(Sql::UpdateDeadline { deadline: a, id })
            == "update queue_running set deadline = ? where id = ?"@,
        sql_text(Sql::RemoveRunning { id }) == "delete from queue_running where id = ?"@,
        sql_text(Sql::RunningById { id })
            == "select deadline, id, data, backoff_schedule, keys_if_undelivered from queue_running where id = ?"@,
        sql_text(Sql::RunningPastDeadline { now_ms: b })
            == "select id from queue_running where deadline <= ? order by deadline limit 100"@,
{
}

/// The schema is made by three migrations, and the version that they lead to is
/// kept in a table of one row.
pub proof fn statements_on_the_schema_are_worded_so(version: usize)
    ensures
        MIGRATION_COUNT == 3,
        sql_text(Sql::CreateMigrationTable) == "
create table if not exists migration_state(
  k integer not null primary key,
  version integer not null
)
"@,
        sql_text(Sql::GetMigrationVersion) == "select version from migration_state where k = 0"@,
        sql_text(Sql::SaveMigrationVersion { version })
            == "replace into migration_state (k, version) values(?, ?)"@,
        sql_text(Sql::RunMigration { index: 0 }) == "
create table data_version (
  k integer primary key,
  version integer not null
);
insert into data_version (k, version) values (0, 0);
create table kv (
  k blob primary key,
  v blob not null,
  v_encoding integer not null,
  version integer not null
) without rowid;
"@,
        sql_text(Sql::RunMigration { index: 1 }) == "
create table queue (
  ts integer not null,
  id text not null,
  data blob not null,
  backoff_schedule text not null,
  keys_if_undelivered blob not null,

  primary key (ts, id)
);
create table queue_running(
  deadline integer not null,
  id text not null,
  data blob not null,
  backoff_schedule text not null,
  keys_if_undelivered blob not null,

  primary key (deadline, id)
);
"@,
        sql_text(Sql::RunMigration { index: 2 }) == "
alter table kv add column seq integer not null default 0;
alter table data_version add column seq integer not null default 0;
alter table kv add column expiration_ms integer not null default -1;
create index kv_expiration_ms_idx on kv (expiration_ms);
"@,
{
}

/// Errors are shown by their own text, or by one that says what is wrong.
pub proof fn errors_are_worded_so(failure: Failure, text: Seq<char>, n: i64)
    ensures
        fault_text(Fault::Sqlite(failure)) == failure.message,
        fault_text(Fault::Generic(text)) == text,
        fault_text(Fault::TypeMismatch(text)) == text,
        fault_text(Fault::DatabaseClosed) == "Database is closed."@,
        fault_text(Fault::WriteDisabled) == "Can not write to a read-only database."@,
        fault_text(Fault::SumOutOfRange)
            == "The result of a Sum operation would exceed its range limit"@,
        n >= 0 ==> fault_text(Fault::UnknownValueEncoding(n)) == "The value encoding "@
            + decimal_digits(n as nat) + " is unknown."@,
        n < 0 ==> fault_text(Fault::UnknownValueEncoding(n)) == "The value encoding "@ + "-"@
            + decimal_digits((-n) as nat) + " is unknown."@,
{
    if n < 0 {
        assert(fault_text(Fault::UnknownValueEncoding(n)) =~= "The value encoding "@ + "-"@
            + decimal_digits((-n) as nat) + " is unknown."@);
    }
}

/// A busy database, and nothing else, is tried again, after at least five and less
/// than twenty milliseconds.
pub proof fn only_a_busy_database_is_tried_again<R>(value: R, e: SqliteBackendError)
    ensures
        !is_busy(Ok::<R, SqliteBackendError>(value)),
        match e {
            SqliteBackendError::SqliteError(failure) => is_busy(Err::<R, SqliteBackendError>(e)) == (
            failure.code is DatabaseBusy),
            _ => !is_busy(Err::<R, SqliteBackendError>(e)),
        },
        RETRY_DELAY_MIN_MS == 5,
        RETRY_DELAY_END_MS == 20,
{
}

} // verus!
