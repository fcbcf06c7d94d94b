//! The texts of the statements.

use crate::request::{Sql, Statement};
use crate::schema::{migration, migration_text, MIGRATION_COUNT};
use vstd::prelude::*;

verus! {

/// The text of a statement, with a placeholder for each parameter.
pub open spec fn sql_text(sql: Sql) -> Seq<char> {
    match sql {
        Sql::IncrementDataVersion { .. } => {
            "update data_version set version = version + ? where k = 0 returning version"@
        },
        Sql::GetDataVersion => {
            "select version from data_version where k = 0"@
        },
        Sql::ScanRange { reverse, .. } => {
            if reverse {
                "select k, v, v_encoding, version from kv where k >= ? and k < ? order by k desc limit ?"@
            } else {
                "select k, v, v_encoding, version from kv where k >= ? and k < ? order by k asc limit ?"@
            }
        },
        Sql::GetValue { .. } => {
            "select v, v_encoding from kv where k = ?"@
        },
        Sql::GetVersion { .. } => {
            "select version from kv where k = ?"@
        },
        Sql::SetRow { .. } => {
            "insert into kv (k, v, v_encoding, version, expiration_ms) values (:k, :v, :v_encoding, :version, :expiration_ms) on conflict(k) do update set v = :v, v_encoding = :v_encoding, version = :version, expiration_ms = :expiration_ms"@
        },
        Sql::DeleteRow { .. } => {
            "delete from kv where k = ?"@
        },
        Sql::DeleteExpired { .. } => {
            "delete from kv where expiration_ms >= 0 and expiration_ms <= ? returning k"@
        },
        Sql::EarliestExpiration => {
            "select expiration_ms from kv where expiration_ms >= 0 order by expiration_ms limit 1"@
        },
        Sql::AddReady { .. } => {
            "insert into queue (ts, id, data, backoff_schedule, keys_if_undelivered) values(?, ?, ?, ?, ?)"@
        },
        Sql::NextReady { .. } => {
            "select ts, id, data, backoff_schedule, keys_if_undelivered from queue where ts <= ? order by ts limit 1"@
        },
        Sql::EarliestReady => {
            "select ts from queue order by ts limit 1"@
        },
        Sql::RemoveReady { .. } => {
            "delete from queue where id = ?"@
        },
        Sql::AddRunning { .. } => {
            "insert into queue_running (deadline, id, data, backoff_schedule, keys_if_undelivered) values(?, ?, ?, ?, ?)"@
        },
        Sql::UpdateDeadline { .. } => {
            "update queue_running set deadline = ? where id = ?"@
        },
        Sql::RemoveRunning { .. } => {
            "delete from queue_running where id = ?"@
        },
        Sql::RunningById { .. } => {
            "select deadline, id, data, backoff_schedule, keys_if_undelivered from queue_running where id = ?"@
        },
        Sql::RunningPastDeadline { .. } => {
            "select id from queue_running where deadline <= ? order by deadline limit 100"@
        },
        Sql::CreateMigrationTable => {
            "
create table if not exists migration_state(
  k integer not null primary key,
  version integer not null
)
"@
        },
        Sql::GetMigrationVersion => {
            "select version from migration_state where k = 0"@
        },
        Sql::RunMigration { index } => migration_text(index as int),
        Sql::SaveMigrationVersion { .. } => {
            "replace into migration_state (k, version) values(?, ?)"@
        },
    }
}

/// The text of a statement.
pub fn statement_text(statement: &Statement) -> (text: &'static str)
    requires
        statement@ matches Sql::RunMigration { index } ==> index < MIGRATION_COUNT,
    ensures
        text@ == sql_text(statement@),
{
    match statement {
        Statement::IncrementDataVersion { .. } => {
            "update data_version set version = version + ? where k = 0 returning version"
        },
        Statement::GetDataVersion => {
            "select version from data_version where k = 0"
        },
        Statement::ScanRange { reverse, .. } => {
            if *reverse {
                "select k, v, v_encoding, version from kv where k >= ? and k < ? order by k desc limit ?"
            } else {
                "select k, v, v_encoding, version from kv where k >= ? and k < ? order by k asc limit ?"
            }
        },
        Statement::GetValue { .. } => {
            "select v, v_encoding from kv where k = ?"
        },
        Statement::GetVersion { .. } => {
            "select version from kv where k = ?"
        },
        Statement::SetRow { .. } => {
            "insert into kv (k, v, v_encoding, version, expiration_ms) values (:k, :v, :v_encoding, :version, :expiration_ms) on conflict(k) do update set v = :v, v_encoding = :v_encoding, version = :version, expiration_ms = :expiration_ms"
        },
        Statement::DeleteRow { .. } => {
            "delete from kv where k = ?"
        },
        Statement::DeleteExpired { .. } => {
            "delete from kv where expiration_ms >= 0 and expiration_ms <= ? returning k"
        },
        Statement::EarliestExpiration => {
            "select expiration_ms from kv where expiration_ms >= 0 order by expiration_ms limit 1"
        },
        Statement::AddReady { .. } => {
            "insert into queue (ts, id, data, backoff_schedule, keys_if_undelivered) values(?, ?, ?, ?, ?)"
        },
        Statement::NextReady { .. } => {
            "select ts, id, data, backoff_schedule, keys_if_undelivered from queue where ts <= ? order by ts limit 1"
        },
        Statement::EarliestReady => {
            "select ts from queue order by ts limit 1"
        },
        Statement::RemoveReady { .. } => {
            "delete from queue where id = ?"
        },
        Statement::AddRunning { .. } => {
            "insert into queue_running (deadline, id, data, backoff_schedule, keys_if_undelivered) values(?, ?, ?, ?, ?)"
        },
        Statement::UpdateDeadline { .. } => {
            "update queue_running set deadline = ? where id = ?"
        },
        Statement::RemoveRunning { .. } => {
            "delete from queue_running where id = ?"
        },
        Statement::RunningById { .. } => {
            "select deadline, id, data, backoff_schedule, keys_if_undelivered from queue_running where id = ?"
        },
        Statement::RunningPastDeadline { .. } => {
            "select id from queue_running where deadline <= ? order by deadline limit 100"
        },
        Statement::CreateMigrationTable => {
            "
create table if not exists migration_state(
  k integer not null primary key,
  version integer not null
)
"
        },
        Statement::GetMigrationVersion => {
            "select version from migration_state where k = 0"
        },
        Statement::RunMigration { index } => migration(*index),
        Statement::SaveMigrationVersion { .. } => {
            "replace into migration_state (k, version) values(?, ?)"
        },
    }
}

} // verus!
