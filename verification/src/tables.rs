//! What the statements mean: how each of them changes the tables, and what it
//! answers.

use crate::bytes::bytes_less;
use crate::request::{Answer, Message, Row, Sql, SqlInteger};
use crate::schema::MIGRATION_COUNT;
use crate::write::NEVER_EXPIRES;
use vstd::prelude::*;

verus! {

/// A row of the values, under its key.
pub struct StoredRow {
    pub value: Seq<u8>,
    pub encoding: i64,
    pub version: i64,
    pub expiration_ms: i64,
}

/// A row of the queue. `ts` is the time at which the message is due, or its
/// deadline where it is running.
pub struct QueueRow {
    pub ts: i64,
    pub id: Seq<char>,
    pub data: Seq<u8>,
    pub backoff_schedule: Seq<char>,
    pub keys_if_undelivered: Seq<char>,
}

/// The contents of the database. `migrations` are those that were run on it, in
/// their order.
#[verifier::ext_equal]
pub struct Tables {
    pub schema_version: Option<usize>,
    pub migrations: Seq<usize>,
    pub data_version: i64,
    pub kv: Map<Seq<u8>, StoredRow>,
    pub ready: Set<QueueRow>,
    pub running: Set<QueueRow>,
}

/// The value of a key and its encoding, if it has one.
pub open spec fn value_at(kv: Map<Seq<u8>, StoredRow>, key: Seq<u8>) -> Option<(Seq<u8>, i64)> {
    if kv.contains_key(key) {
        Some((kv[key].value, kv[key].encoding))
    } else {
        None
    }
}

/// The version of a key, if it has a value.
pub open spec fn version_at(kv: Map<Seq<u8>, StoredRow>, key: Seq<u8>) -> Option<i64> {
    if kv.contains_key(key) {
        Some(kv[key].version)
    } else {
        None
    }
}

/// Whether a key lies in the range from `start` up to but not including `end`.
pub open spec fn in_range(start: Seq<u8>, end: Seq<u8>, key: Seq<u8>) -> bool {
    !bytes_less(key, start) && bytes_less(key, end)
}

/// Whether one key comes before another one in a scan.
pub open spec fn precedes(reverse: bool, a: Seq<u8>, b: Seq<u8>) -> bool {
    if reverse {
        bytes_less(b, a)
    } else {
        bytes_less(a, b)
    }
}

/// The row that a scan reads for a key.
pub open spec fn scanned_row(kv: Map<Seq<u8>, StoredRow>, key: Seq<u8>) -> Row {
    Row { key, value: kv[key].value, encoding: kv[key].encoding, version: kv[key].version }
}

/// Whether `rows` are the first rows of a range, at most `limit` of them.
pub open spec fn is_scan(
    kv: Map<Seq<u8>, StoredRow>,
    start: Seq<u8>,
    end: Seq<u8>,
    limit: int,
    reverse: bool,
    rows: Seq<Row>,
) -> bool {
    &&& rows.len() <= limit
    &&& forall|i: int|
        0 <= i < rows.len() ==> {
            let key = (#[trigger] rows[i]).key;
            kv.contains_key(key) && in_range(start, end, key) && rows[i] == scanned_row(kv, key)
        }
    &&& forall|i: int, j: int|
        0 <= i < j < rows.len() ==> precedes(
            reverse,
            (#[trigger] rows[i]).key,
            (#[trigger] rows[j]).key,
        )
    &&& forall|key: Seq<u8>| #[trigger]
        kv.contains_key(key) && in_range(start, end, key) ==> {
            ||| exists|i: int| 0 <= i < rows.len() && (#[trigger] rows[i]).key == key
            ||| rows.len() == limit && forall|i: int|
                0 <= i < rows.len() ==> precedes(reverse, (#[trigger] rows[i]).key, key)
        }
}

/// Whether the value of a key has expired.
pub open spec fn has_expired(kv: Map<Seq<u8>, StoredRow>, now_ms: i64, key: Seq<u8>) -> bool {
    kv.contains_key(key) && 0 <= kv[key].expiration_ms <= now_ms
}

/// The values that have not expired.
pub open spec fn unexpired(kv: Map<Seq<u8>, StoredRow>, now_ms: i64) -> Map<Seq<u8>, StoredRow> {
    kv.restrict(Set::new(|key: Seq<u8>| kv.contains_key(key) && !has_expired(kv, now_ms, key)))
}

/// Whether `ms` is when the next value expires, if one does.
pub open spec fn is_earliest_expiration(kv: Map<Seq<u8>, StoredRow>, ms: Option<u64>) -> bool {
    match ms {
        Some(ms) => {
            &&& exists|key: Seq<u8>| #[trigger]
                kv.contains_key(key) && kv[key].expiration_ms == ms
            &&& forall|key: Seq<u8>| #[trigger]
                kv.contains_key(key) && kv[key].expiration_ms >= 0 ==> ms <= kv[key].expiration_ms
        },
        None => forall|key: Seq<u8>| #[trigger]
            kv.contains_key(key) ==> kv[key].expiration_ms < 0,
    }
}

/// An integer parameter that the database can hold.
pub open spec fn sql_integer(n: SqlInteger) -> Option<i64> {
    match n {
        SqlInteger::Signed(n) => Some(n),
        SqlInteger::Unsigned(n) => if n <= i64::MAX {
            Some(n as i64)
        } else {
            None
        },
    }
}

/// The rows of a message.
pub open spec fn of_message(rows: Set<QueueRow>, id: Seq<char>) -> Set<QueueRow> {
    rows.filter(|row: QueueRow| row.id == id)
}

/// The rows of all other messages.
pub open spec fn of_others(rows: Set<QueueRow>, id: Seq<char>) -> Set<QueueRow> {
    rows.filter(|row: QueueRow| row.id != id)
}

/// Whether there is a row with that time and that name already.
pub open spec fn is_taken(rows: Set<QueueRow>, ts: i64, id: Seq<char>) -> bool {
    exists|row: QueueRow| #[trigger] rows.contains(row) && row.ts == ts && row.id == id
}

/// The row of a message.
pub open spec fn queue_row(message: Message) -> QueueRow {
    QueueRow {
        ts: message.ts as i64,
        id: message.id,
        data: message.data,
        backoff_schedule: message.backoff_schedule,
        keys_if_undelivered: message.keys_if_undelivered,
    }
}

/// Whether a message was read from one of the rows.
pub open spec fn is_read_from(rows: Set<QueueRow>, message: Message) -> bool {
    message.ts <= i64::MAX && rows.contains(queue_row(message))
}

/// Whether `message` is one that has been due for the longest time, if one is.
pub open spec fn is_next_ready(
    rows: Set<QueueRow>,
    now_ms: u64,
    message: Option<Message>,
) -> bool {
    match message {
        Some(message) => {
            &&& is_read_from(rows, message)
            &&& message.ts <= now_ms
            &&& forall|row: QueueRow| #[trigger] rows.contains(row) ==> message.ts <= row.ts
        },
        None => forall|row: QueueRow| #[trigger] rows.contains(row) ==> row.ts > now_ms,
    }
}

/// Whether `ms` is the earliest time among the rows, if there are any.
pub open spec fn is_earliest(rows: Set<QueueRow>, ms: Option<u64>) -> bool {
    match ms {
        Some(ms) => {
            &&& exists|row: QueueRow| #[trigger] rows.contains(row) && row.ts == ms
            &&& forall|row: QueueRow| #[trigger] rows.contains(row) ==> ms <= row.ts
        },
        None => forall|row: QueueRow| !#[trigger] rows.contains(row),
    }
}

/// How many messages past their deadline are listed at once.
pub open spec fn overdue_limit() -> int {
    100
}

/// Whether `overdue` are the rows past their deadline, the earliest first and at
/// most `overdue_limit` of them. One that is left out is not earlier than those.
pub open spec fn is_overdue(rows: Set<QueueRow>, now_ms: i64, overdue: Seq<QueueRow>) -> bool {
    &&& overdue.no_duplicates()
    &&& overdue.len() <= overdue_limit()
    &&& forall|i: int|
        0 <= i < overdue.len() ==> rows.contains(#[trigger] overdue[i]) && overdue[i].ts <= now_ms
    &&& forall|i: int, j: int|
        0 <= i < j < overdue.len() ==> (#[trigger] overdue[i]).ts <= (#[trigger] overdue[j]).ts
    &&& forall|row: QueueRow| #[trigger]
        rows.contains(row) && row.ts <= now_ms && !overdue.contains(row) ==> {
            &&& overdue.len() == overdue_limit()
            &&& forall|i: int| 0 <= i < overdue.len() ==> (#[trigger] overdue[i]).ts <= row.ts
        }
}

/// The names of rows.
pub open spec fn ids_of(rows: Seq<QueueRow>) -> Seq<Seq<char>> {
    Seq::new(rows.len(), |i: int| rows[i].id)
}

/// The rows, with the deadline of a message put off.
pub open spec fn put_off(rows: Set<QueueRow>, deadline: i64, id: Seq<char>) -> Set<QueueRow> {
    rows.map(
        |row: QueueRow|
            if row.id == id {
                QueueRow { ts: deadline, ..row }
            } else {
                row
            },
    )
}

/// Whether a migration can be run: it has not been, and the tables are there that
/// it changes.
pub open spec fn can_migrate(migrations: Seq<usize>, index: usize) -> bool {
    &&& index < MIGRATION_COUNT
    &&& !migrations.contains(index)
    &&& index == 2 ==> migrations.contains(0)
}

/// The tables after a migration. The first one makes the values and the version
/// of the data, the second one the queue and the running messages, and the third
/// one gives every value an expiration, which is none.
pub open spec fn migrated_by(before: Tables, index: usize) -> Tables {
    let migrations = before.migrations.push(index);
    if index == 0 {
        Tables { migrations, data_version: 0, kv: Map::empty(), ..before }
    } else if index == 1 {
        Tables { migrations, ready: Set::empty(), running: Set::empty(), ..before }
    } else {
        Tables {
            migrations,
            kv: before.kv.map_values(
                |row: StoredRow| StoredRow { expiration_ms: NEVER_EXPIRES, ..row },
            ),
            ..before
        }
    }
}

/// Whether a statement that runs on the tables `before` can answer so and leave
/// the tables `after`.
pub open spec fn performs(before: Tables, sql: Sql, answer: Answer, after: Tables) -> bool {
    match sql {
        Sql::IncrementDataVersion { increment } => {
            &&& i64::MIN <= before.data_version + increment <= i64::MAX
            &&& after == Tables {
                data_version: (before.data_version + increment) as i64,
                ..before
            }
            &&& answer == Answer::Version(after.data_version)
        },
        Sql::GetDataVersion => after == before && answer == Answer::Version(before.data_version),
        Sql::ScanRange { start, end, limit, reverse } => {
            &&& after == before
            &&& answer matches Answer::Rows(rows, None)
            &&& is_scan(before.kv, start, end, limit as int, reverse, rows)
        },
        Sql::GetValue { key } => after == before && answer == Answer::RowValue(
            value_at(before.kv, key),
        ),
        Sql::GetVersion { key } => after == before && answer == Answer::RowVersion(
            version_at(before.kv, key),
        ),
        Sql::SetRow { key, value, encoding, version, expiration_ms } => {
            &&& after == Tables {
                kv: before.kv.insert(key, StoredRow { value, encoding, version, expiration_ms }),
                ..before
            }
            &&& answer == Answer::Changed(1)
        },
        Sql::DeleteRow { key } => {
            &&& after == Tables { kv: before.kv.remove(key), ..before }
            &&& answer == if before.kv.contains_key(key) {
                Answer::Changed(1)
            } else {
                Answer::Changed(0)
            }
        },
        Sql::DeleteExpired { now_ms } => {
            &&& after == Tables { kv: unexpired(before.kv, now_ms), ..before }
            &&& answer matches Answer::Keys(keys)
            &&& keys.no_duplicates()
            &&& forall|key: Seq<u8>| #[trigger]
                keys.contains(key) <==> has_expired(before.kv, now_ms, key)
        },
        Sql::EarliestExpiration => {
            &&& after == before
            &&& answer matches Answer::Time(ms)
            &&& is_earliest_expiration(before.kv, ms)
        },
        Sql::AddReady { ts, id, data, backoff_schedule, keys_if_undelivered } => {
            &&& sql_integer(ts) matches Some(ts)
            &&& !is_taken(before.ready, ts, id)
            &&& after == Tables {
                ready: before.ready.insert(
                    QueueRow { ts, id, data, backoff_schedule, keys_if_undelivered },
                ),
                ..before
            }
            &&& answer == Answer::Changed(1)
        },
        Sql::NextReady { now_ms } => {
            &&& after == before
            &&& now_ms <= i64::MAX
            &&& answer matches Answer::Message(message)
            &&& is_next_ready(before.ready, now_ms, message)
        },
        Sql::EarliestReady => {
            &&& after == before
            &&& answer matches Answer::Time(ms)
            &&& is_earliest(before.ready, ms)
        },
        Sql::RemoveReady { id } => {
            &&& after == Tables { ready: of_others(before.ready, id), ..before }
            &&& answer matches Answer::Changed(n)
            &&& n == of_message(before.ready, id).len()
        },
        Sql::AddRunning { deadline, id, data, backoff_schedule, keys_if_undelivered } => {
            &&& sql_integer(SqlInteger::Unsigned(deadline)) matches Some(ts)
            &&& !is_taken(before.running, ts, id)
            &&& after == Tables {
                running: before.running.insert(
                    QueueRow { ts, id, data, backoff_schedule, keys_if_undelivered },
                ),
                ..before
            }
            &&& answer == Answer::Changed(1)
        },
        Sql::UpdateDeadline { deadline, id } => {
            &&& sql_integer(SqlInteger::Unsigned(deadline)) matches Some(ts)
            &&& after == Tables { running: put_off(before.running, ts, id), ..before }
            &&& answer matches Answer::Changed(n)
            &&& n == of_message(before.running, id).len()
        },
        Sql::RemoveRunning { id } => {
            &&& after == Tables { running: of_others(before.running, id), ..before }
            &&& answer matches Answer::Changed(n)
            &&& n == of_message(before.running, id).len()
        },
        Sql::RunningById { id } => {
            &&& after == before
            &&& answer matches Answer::Message(message)
            &&& match message {
                Some(message) => message.id == id && is_read_from(before.running, message),
                None => forall|row: QueueRow| #[trigger]
                    before.running.contains(row) ==> row.id != id,
            }
        },
        Sql::RunningPastDeadline { now_ms } => {
            &&& after == before
            &&& exists|overdue: Seq<QueueRow>| #[trigger]
                is_overdue(before.running, now_ms, overdue) && answer == Answer::Ids(
                    ids_of(overdue),
                )
        },
        Sql::CreateMigrationTable => after == before && answer is Changed,
        Sql::GetMigrationVersion => after == before && answer == Answer::SchemaVersion(
            before.schema_version,
        ),
        Sql::RunMigration { index } => {
            &&& can_migrate(before.migrations, index)
            &&& after == migrated_by(before, index)
            &&& answer == Answer::Performed
        },
        Sql::SaveMigrationVersion { version } => {
            &&& after == Tables { schema_version: Some(version), ..before }
            &&& answer == Answer::Changed(1)
        },
    }
}

} // verus!
