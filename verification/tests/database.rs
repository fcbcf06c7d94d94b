use denokv_sqlite::backend::{BatchStart, SqliteBackend};
use denokv_sqlite::batch::{finish_batch, BatchEnd};
use denokv_sqlite::error::{ErrorCode, SqliteBackendError, SqliteFailure};
use denokv_sqlite::queue::{DequeueOutput, QueueMessageId};
use denokv_sqlite::read::{KvEntry, ReadRange, SnapshotOutput};
use denokv_sqlite::request::{KvRow, QueuedMessage, Reply, Request, SqlInteger, Statement, Step};
use denokv_sqlite::sql::statement_text;
use denokv_sqlite::sum::{NumberSum, SumOperand};
use denokv_sqlite::value::KvValue;
use denokv_sqlite::versionstamp::{version_to_versionstamp, versionstamped_key, Versionstamp};
use denokv_sqlite::write::{AtomicWrite, Check, Enqueue, Mutation, MutationKind};
use num_bigint::BigInt;
use rusqlite::{Connection, OptionalExtension, Row};

/// A database in memory, and what was asked for besides statements.
struct World {
    conn: Connection,
    backend: SqliteBackend,
    drawn: i64,
    dequeues: usize,
}

fn message(row: &Row) -> rusqlite::Result<QueuedMessage> {
    Ok(QueuedMessage {
        ts: row.get(0)?,
        id: row.get(1)?,
        data: row.get(2)?,
        backoff_schedule: row.get(3)?,
        keys_if_undelivered: row.get(4)?,
    })
}

fn kv_row(row: &Row) -> rusqlite::Result<KvRow> {
    Ok(KvRow {
        key: row.get(0)?,
        value: row.get(1)?,
        encoding: row.get(2)?,
        version: row.get(3)?,
    })
}

fn run(conn: &Connection, statement: &Statement) -> rusqlite::Result<Reply> {
    let text = statement_text(statement);
    Ok(match statement {
        Statement::IncrementDataVersion { increment } => {
            Reply::Version(conn.query_row(text, [increment], |row| row.get(0))?)
        }
        Statement::GetDataVersion => {
            Reply::Version(conn.query_row(text, [], |row| row.get(0))?)
        }
        Statement::ScanRange { start, end, limit, .. } => {
            let mut stmt = conn.prepare(text)?;
            let rows = stmt
                .query_map((start, end, limit), kv_row)?
                .collect::<Result<Vec<_>, _>>()?;
            Reply::Rows(rows, None)
        }
        Statement::GetValue { key } => Reply::RowValue(
            conn.query_row(text, [key], |row| Ok((row.get(0)?, row.get(1)?))).optional()?,
        ),
        Statement::GetVersion { key } => {
            Reply::RowVersion(conn.query_row(text, [key], |row| row.get(0)).optional()?)
        }
        Statement::SetRow { key, value, encoding, version, expiration_ms } => Reply::Changed(
            conn.execute(text, (key, value, encoding, version, expiration_ms))?,
        ),
        Statement::DeleteRow { key } => Reply::Changed(conn.execute(text, [key])?),
        Statement::DeleteExpired { now_ms } => {
            let mut stmt = conn.prepare(text)?;
            let keys = stmt
                .query_map([now_ms], |row| row.get(0))?
                .collect::<Result<Vec<Vec<u8>>, _>>()?;
            Reply::Keys(keys)
        }
        Statement::EarliestExpiration | Statement::EarliestReady => {
            Reply::Time(conn.query_row(text, [], |row| row.get(0)).optional()?)
        }
        Statement::AddReady { ts, id, data, backoff_schedule, keys_if_undelivered } => {
            Reply::Changed(match ts {
                SqlInteger::Signed(ts) => conn
                    .execute(text, (ts, id, data, backoff_schedule, keys_if_undelivered))?,
                SqlInteger::Unsigned(ts) => conn
                    .execute(text, (ts, id, data, backoff_schedule, keys_if_undelivered))?,
            })
        }
        Statement::NextReady { now_ms } => {
            Reply::Message(conn.query_row(text, [now_ms], message).optional()?)
        }
        Statement::RemoveReady { id } | Statement::RemoveRunning { id } => {
            Reply::Changed(conn.execute(text, [id])?)
        }
        Statement::AddRunning { deadline, id, data, backoff_schedule, keys_if_undelivered } => {
            Reply::Changed(conn.execute(
                text,
                (deadline, id, data, backoff_schedule, keys_if_undelivered),
            )?)
        }
        Statement::UpdateDeadline { deadline, id } => {
            Reply::Changed(conn.execute(text, (deadline, id))?)
        }
        Statement::RunningById { id } => {
            Reply::Message(conn.query_row(text, [id], message).optional()?)
        }
        Statement::RunningPastDeadline { now_ms } => {
            let mut stmt = conn.prepare(text)?;
            let ids = stmt
                .query_map([now_ms], |row| row.get(0))?
                .collect::<Result<Vec<String>, _>>()?;
            Reply::Ids(ids)
        }
        Statement::CreateMigrationTable => Reply::Changed(conn.execute(text, [])?),
        Statement::GetMigrationVersion => {
            Reply::SchemaVersion(conn.query_row(text, [], |row| row.get(0)).optional()?)
        }
        Statement::RunMigration { .. } => {
            conn.execute_batch(text)?;
            Reply::Performed
        }
        Statement::SaveMigrationVersion { version } => {
            Reply::Changed(conn.execute(text, [&0, version])?)
        }
    })
}

/// Operands in the shape of the tests: a letter, and the number behind it.
fn parse(value: &KvValue) -> Result<SumOperand, String> {
    match value {
        KvValue::U64(n) => Ok(SumOperand::KvU64(*n)),
        KvValue::V8(bytes) if bytes.first() == Some(&b'b') => {
            Ok(SumOperand::BigInt(bytes[1..].to_vec()))
        }
        KvValue::V8(bytes) if bytes.first() == Some(&b'n') && bytes.len() == 9 => {
            let mut bits = [0; 8];
            bits.copy_from_slice(&bytes[1..]);
            Ok(SumOperand::Number(u64::from_le_bytes(bits)))
        }
        _ => Err("not an operand".to_string()),
    }
}

fn encode(operand: &SumOperand) -> KvValue {
    match operand {
        SumOperand::KvU64(n) => KvValue::U64(*n),
        SumOperand::BigInt(bytes) => KvValue::V8([b"b", bytes.as_slice()].concat()),
        SumOperand::Number(bits) => KvValue::V8([&b"n"[..], &bits.to_le_bytes()[..]].concat()),
    }
}

fn parse_optional(bytes: &[u8]) -> Result<Option<SumOperand>, String> {
    if bytes.is_empty() {
        Ok(None)
    } else {
        parse(&KvValue::V8(bytes.to_vec())).map(Some)
    }
}

impl World {
    fn perform(&mut self, request: Request) -> Reply {
        match request {
            Request::Sql(statement) => match run(&self.conn, &statement) {
                Ok(reply) => reply,
                Err(e) => Reply::Failed(SqliteFailure {
                    code: ErrorCode::Other,
                    message: e.to_string(),
                }),
            },
            Request::DrawNumber { low, high } => {
                assert!(low <= self.drawn && self.drawn < high);
                Reply::Drawn(self.drawn)
            }
            Request::ReadSum { operand, min_v8, max_v8 } => Reply::SumRead {
                operand: parse(&operand),
                min: parse_optional(&min_v8),
                max: parse_optional(&max_v8),
            },
            Request::ReadStored { value } => Reply::StoredRead(parse(&value)),
            Request::AddNumbers { current, operand, min, max } => {
                let sum = f64::from_bits(current) + f64::from_bits(operand);
                let (min, max) = (min.map(f64::from_bits), max.map(f64::from_bits));
                Reply::NumbersAdded(NumberSum {
                    sum: sum.to_bits(),
                    below_min: min.map_or(false, |min| sum < min),
                    above_max: max.map_or(false, |max| sum > max),
                    min_above_max: matches!((min, max), (Some(min), Some(max)) if min > max),
                })
            }
            Request::WriteSum { operand } => Reply::SumWritten(encode(&operand)),
            Request::ScheduleDequeue => {
                self.dequeues += 1;
                Reply::Performed
            }
        }
    }

    fn open() -> World {
        let conn = Connection::open_in_memory().unwrap();
        let (backend, task) = SqliteBackend::new(false, false);
        let mut world = World { conn, backend, drawn: 1, dequeues: 0 };
        let mut task = task.unwrap();
        let mut reply = Reply::Begin;
        loop {
            assert!(task.accepts(&reply));
            match task.resume(reply) {
                Step::Ask(request) => reply = world.perform(request),
                Step::Done(result) => {
                    result.unwrap();
                    return world;
                }
                Step::ClockOverflow => panic!("no time is involved"),
            }
        }
    }

    fn batch(&mut self, writes: &Vec<AtomicWrite>) -> BatchEnd {
        let mut task = match self.backend.atomic_write_batched(writes) {
            BatchStart::Begun(task) => task,
            BatchStart::Refused(_) => panic!("refused"),
        };
        let mut reply = Reply::Begin;
        loop {
            assert!(task.accepts(&reply));
            match task.resume(reply) {
                Step::Ask(request) => reply = self.perform(request),
                Step::Done(outcome) => return finish_batch(writes, outcome),
                Step::ClockOverflow => panic!("no time is involved"),
            }
        }
    }

    fn write(
        &mut self,
        checks: Vec<Check>,
        mutations: Vec<Mutation>,
        enqueues: Vec<Enqueue>,
    ) -> Result<Option<Versionstamp>, SqliteBackendError> {
        let mut end = self.batch(&vec![AtomicWrite { checks, mutations, enqueues }]);
        assert_eq!(end.results.len(), 1);
        end.results.remove(0).map(|commit| commit.map(|commit| commit.versionstamp))
    }

    fn mutate(&mut self, key: &[u8], kind: MutationKind) -> Result<(), SqliteBackendError> {
        self.write(vec![], vec![mutation(key, kind)], vec![]).map(|commit| {
            assert!(commit.is_some());
        })
    }

    fn read(&mut self, requests: Vec<ReadRange>) -> Result<SnapshotOutput, SqliteBackendError> {
        let mut task = self.backend.snapshot_read(&requests);
        let mut reply = Reply::Begin;
        loop {
            assert!(task.accepts(&reply));
            match task.resume(reply) {
                Step::Ask(request) => reply = self.perform(request),
                Step::Done(result) => return result,
                Step::ClockOverflow => panic!("no time is involved"),
            }
        }
    }

    fn get(&mut self, key: &[u8]) -> Option<KvEntry> {
        let output = self.read(vec![only(key)]).unwrap();
        let mut entries = output.ranges.into_iter().next().unwrap().entries;
        assert!(entries.len() <= 1);
        entries.pop()
    }

    fn value(&mut self, key: &[u8]) -> Option<KvValue> {
        self.get(key).map(|entry| entry.value)
    }

    fn dequeue(&mut self, now_ms: i64) -> DequeueOutput {
        let mut task = self.backend.queue_dequeue_message(now_ms);
        let mut reply = Reply::Begin;
        loop {
            assert!(task.accepts(&reply));
            match task.resume(reply) {
                Step::Ask(request) => reply = self.perform(request),
                Step::Done(result) => return result.unwrap(),
                Step::ClockOverflow => panic!("out of time"),
            }
        }
    }

    fn next_ready(&mut self) -> Option<i64> {
        let mut task = self.backend.queue_next_ready();
        let mut reply = Reply::Begin;
        loop {
            assert!(task.accepts(&reply));
            match task.resume(reply) {
                Step::Ask(request) => reply = self.perform(request),
                Step::Done(result) => return result.unwrap(),
                Step::ClockOverflow => panic!("out of time"),
            }
        }
    }

    fn finish(
        &mut self,
        now_ms: i64,
        id: &QueueMessageId,
        success: bool,
    ) -> Result<bool, SqliteBackendError> {
        let mut task = self.backend.queue_finish_message(now_ms, id, success);
        let mut reply = Reply::Begin;
        loop {
            assert!(task.accepts(&reply));
            match task.resume(reply) {
                Step::Ask(request) => reply = self.perform(request),
                Step::Done(result) => return result,
                Step::ClockOverflow => panic!("out of time"),
            }
        }
    }

    fn keep_alive(&mut self, now_ms: i64) {
        let mut task = self.backend.queue_running_keepalive(now_ms);
        let mut reply = Reply::Begin;
        loop {
            assert!(task.accepts(&reply));
            match task.resume(reply) {
                Step::Ask(request) => reply = self.perform(request),
                Step::Done(result) => return result.unwrap(),
                Step::ClockOverflow => panic!("out of time"),
            }
        }
    }

    /// All rounds of a cleanup, and how many there were.
    fn clean_up(&mut self, now_ms: i64) -> usize {
        let mut rounds = 0;
        loop {
            rounds += 1;
            let mut task = self.backend.queue_cleanup(now_ms);
            let mut reply = Reply::Begin;
            let done = loop {
                assert!(task.accepts(&reply));
                match task.resume(reply) {
                    Step::Ask(request) => reply = self.perform(request),
                    Step::Done(result) => {
                        let done = result.unwrap();
                        break done;
                    }
                    Step::ClockOverflow => panic!("out of time"),
                }
            };
            if done {
                return rounds;
            }
        }
    }

    fn collect(&mut self, now_ms: i64) -> (Option<i64>, Vec<(Vec<u8>, Versionstamp)>) {
        let mut task = self.backend.collect_expired(now_ms);
        let mut reply = Reply::Begin;
        loop {
            assert!(task.accepts(&reply));
            match task.resume(reply) {
                Step::Ask(request) => reply = self.perform(request),
                Step::Done(result) => {
                    let output = result.unwrap();
                    let updates =
                        output.updates.into_iter().map(|u| (u.key, u.versionstamp)).collect();
                    return (output.earliest_expiration_ms, updates);
                }
                Step::ClockOverflow => panic!("out of time"),
            }
        }
    }

    fn version(&self) -> i64 {
        self.conn.query_row("select version from data_version", [], |row| row.get(0)).unwrap()
    }

    fn count(&self, table: &str) -> i64 {
        self.conn
            .query_row(&format!("select count(*) from {table}"), [], |row| row.get(0))
            .unwrap()
    }

    fn running(&self) -> Vec<(i64, String)> {
        let mut stmt =
            self.conn.prepare("select deadline, id from queue_running order by deadline").unwrap();
        let rows = stmt.query_map([], |row| Ok((row.get(0)?, row.get(1)?))).unwrap();
        rows.map(|row| row.unwrap()).collect()
    }

    fn ready(&self) -> Vec<(i64, Vec<u8>, String, String)> {
        let mut stmt = self
            .conn
            .prepare("select ts, data, backoff_schedule, keys_if_undelivered from queue order by ts")
            .unwrap();
        let rows = stmt
            .query_map([], |row| Ok((row.get(0)?, row.get(1)?, row.get(2)?, row.get(3)?)))
            .unwrap();
        rows.map(|row| row.unwrap()).collect()
    }
}

fn mutation(key: &[u8], kind: MutationKind) -> Mutation {
    Mutation { key: key.to_vec(), kind, expire_at: None }
}

fn set(key: &[u8], value: KvValue) -> Mutation {
    mutation(key, MutationKind::SetValue(value))
}

fn set_until(key: &[u8], value: KvValue, expire_at: i64) -> Mutation {
    Mutation {
        key: key.to_vec(),
        kind: MutationKind::SetValue(value),
        expire_at: Some(expire_at),
    }
}

fn check(key: &[u8], versionstamp: Option<Versionstamp>) -> Check {
    Check { key: key.to_vec(), versionstamp }
}

fn enqueue(payload: &[u8], deadline: i64, backoff: Option<Vec<u32>>, keys: Vec<Vec<u8>>) -> Enqueue {
    Enqueue {
        payload: payload.to_vec(),
        deadline,
        keys_if_undelivered: keys,
        backoff_schedule: backoff,
    }
}

fn range(start: &[u8], end: &[u8], limit: u32, reverse: bool) -> ReadRange {
    ReadRange { start: start.to_vec(), end: end.to_vec(), limit, reverse }
}

fn only(key: &[u8]) -> ReadRange {
    range(key, &[key, &[0]].concat(), 1, false)
}

fn bytes(text: &str) -> KvValue {
    KvValue::Bytes(text.as_bytes().to_vec())
}

fn big(n: i64) -> Vec<u8> {
    [&b"b"[..], BigInt::from(n).to_signed_bytes_le().as_slice()].concat()
}

fn number(x: f64) -> Vec<u8> {
    [&b"n"[..], &x.to_bits().to_le_bytes()[..]].concat()
}

fn sum(value: KvValue, min_v8: Vec<u8>, max_v8: Vec<u8>, clamp: bool) -> MutationKind {
    MutationKind::Sum { value, min_v8, max_v8, clamp }
}

#[test]
fn a_new_database_gets_its_tables() {
    let world = World::open();
    assert_eq!(world.version(), 0);
    for table in ["kv", "queue", "queue_running"] {
        assert_eq!(world.count(table), 0);
    }
    let version: i64 = world
        .conn
        .query_row("select version from migration_state where k = 0", [], |row| row.get(0))
        .unwrap();
    assert_eq!(version, 3);
}

#[test]
fn opening_again_runs_no_migration() {
    let mut world = World::open();
    world.mutate(b"a", MutationKind::SetValue(bytes("x"))).unwrap();
    let (_, task) = SqliteBackend::new(false, false);
    let mut task = task.unwrap();
    let mut reply = Reply::Begin;
    let mut requests = 0;
    loop {
        match task.resume(reply) {
            Step::Ask(request) => {
                assert!(!matches!(request, Request::Sql(Statement::RunMigration { .. })));
                requests += 1;
                reply = world.perform(request);
            }
            Step::Done(result) => {
                assert!(result.is_ok());
                break;
            }
            Step::ClockOverflow => panic!("no time is involved"),
        }
    }
    assert_eq!(requests, 2);
    assert_eq!(world.value(b"a"), Some(bytes("x")));
}

#[test]
fn what_was_set_is_read_back() {
    let mut world = World::open();
    for (key, value) in [
        (&b"a"[..], bytes("one")),
        (&b"b"[..], KvValue::U64(7)),
        (&b"c"[..], KvValue::V8(vec![0xff, 0x0f])),
        (&b""[..], bytes("")),
    ] {
        let copy = value.copy();
        let stamp = world.write(vec![], vec![set(key, value)], vec![]).unwrap().unwrap();
        let entry = world.get(key).unwrap();
        assert_eq!(entry.value, copy);
        assert_eq!(entry.versionstamp, stamp);
        assert_eq!(entry.key, key.to_vec());
        let output = world.read(vec![]).unwrap();
        assert_eq!(output.versionstamp, stamp);
    }
}

#[test]
fn what_was_deleted_is_not_read() {
    let mut world = World::open();
    world.mutate(b"a", MutationKind::SetValue(bytes("x"))).unwrap();
    world.mutate(b"a", MutationKind::Delete).unwrap();
    assert!(world.get(b"a").is_none());
    world.mutate(b"a", MutationKind::Delete).unwrap();
    assert_eq!(world.version(), 3);
}

#[test]
fn the_last_mutation_of_a_key_stays() {
    let mut world = World::open();
    let mutations = vec![
        set(b"a", bytes("first")),
        mutation(b"b", MutationKind::Delete),
        set(b"a", bytes("last")),
        set(b"b", KvValue::U64(1)),
        mutation(b"c", MutationKind::Delete),
    ];
    world.write(vec![], mutations, vec![]).unwrap();
    assert_eq!(world.value(b"a"), Some(bytes("last")));
    assert_eq!(world.value(b"b"), Some(KvValue::U64(1)));
    assert_eq!(world.value(b"c"), None);
}

#[test]
fn a_failed_check_changes_nothing() {
    let mut world = World::open();
    let stamp = world.write(vec![], vec![set(b"a", bytes("x"))], vec![]).unwrap().unwrap();
    let version = world.version();
    let wrong = [
        check(b"a", None),
        check(b"a", Some(version_to_versionstamp(99))),
        check(b"b", Some(stamp)),
    ];
    for wrong in wrong {
        let checks = vec![check(b"a", Some(stamp)), wrong];
        let enqueues = vec![enqueue(b"m", 0, None, vec![])];
        let result = world.write(checks, vec![set(b"a", bytes("y"))], enqueues);
        assert_eq!(result.unwrap(), None);
    }
    assert_eq!(world.value(b"a"), Some(bytes("x")));
    assert_eq!(world.version(), version);
    assert_eq!(world.count("queue"), 0);
}

#[test]
fn a_check_notices_a_change() {
    let mut world = World::open();
    let stamp = world.write(vec![], vec![set(b"a", bytes("x"))], vec![]).unwrap().unwrap();
    let checks = || vec![check(b"a", Some(stamp)), check(b"b", None)];
    let commit = world.write(checks(), vec![set(b"a", bytes("y"))], vec![]).unwrap();
    assert!(commit.unwrap() > stamp);
    assert_eq!(world.write(checks(), vec![set(b"a", bytes("z"))], vec![]).unwrap(), None);
    assert_eq!(world.value(b"a"), Some(bytes("y")));
}

#[test]
fn a_commit_makes_a_later_version() {
    let mut world = World::open();
    let mut last = version_to_versionstamp(0);
    let mut version = 0;
    for drawn in [1, 9, 4, 1, 9] {
        world.drawn = drawn;
        let stamp = world.write(vec![], vec![], vec![]).unwrap().unwrap();
        version += drawn;
        assert_eq!(world.version(), version);
        assert_eq!(stamp, version_to_versionstamp(version));
        assert!(stamp > last);
        last = stamp;
    }
}

#[test]
fn ranges_are_read_in_order_and_up_to_their_limit() {
    let mut world = World::open();
    let keys: [&[u8]; 5] = [b"a", b"aa", b"b", b"c", b"d"];
    for key in keys {
        world.mutate(key, MutationKind::SetValue(bytes("v"))).unwrap();
    }
    let output = world
        .read(vec![
            range(b"a", b"d", 10, false),
            range(b"a", b"d", 2, true),
            range(b"aa", b"c", 1, false),
            range(b"d", b"a", 10, false),
            range(b"x", b"z", 10, false),
        ])
        .unwrap();
    let found: Vec<Vec<Vec<u8>>> = output
        .ranges
        .into_iter()
        .map(|range| range.entries.into_iter().map(|entry| entry.key).collect())
        .collect();
    let expected: Vec<Vec<&[u8]>> = vec![
        vec![b"a", b"aa", b"b", b"c"],
        vec![b"c", b"b"],
        vec![b"aa"],
        vec![],
        vec![],
    ];
    assert_eq!(found, expected);
    assert_eq!(output.versionstamp, version_to_versionstamp(5));
}

#[test]
fn an_unknown_encoding_is_reported() {
    let mut world = World::open();
    world.mutate(b"a", MutationKind::SetValue(bytes("v"))).unwrap();
    world.conn.execute("update kv set v_encoding = 77", []).unwrap();
    assert!(matches!(
        world.read(vec![only(b"a")]),
        Err(SqliteBackendError::UnknownValueEncoding(77))
    ));
    assert!(matches!(
        world.mutate(b"a", MutationKind::Min(KvValue::U64(1))),
        Err(SqliteBackendError::UnknownValueEncoding(77))
    ));
    let summed = world.mutate(b"a", sum(KvValue::V8(big(1)), vec![], vec![], false));
    assert_eq!(summed.unwrap_err().message(), "Invalid sum operand");
}

#[test]
fn numbers_are_mutated_in_place() {
    let mut world = World::open();
    let plain = |n| sum(KvValue::U64(n), vec![], vec![], false);
    world.mutate(b"n", plain(10)).unwrap();
    world.mutate(b"n", plain(5)).unwrap();
    assert_eq!(world.value(b"n"), Some(KvValue::U64(15)));
    world.mutate(b"n", plain(u64::MAX)).unwrap();
    assert_eq!(world.value(b"n"), Some(KvValue::U64(14)));
    world.mutate(b"n", MutationKind::Min(KvValue::U64(9))).unwrap();
    assert_eq!(world.value(b"n"), Some(KvValue::U64(9)));
    world.mutate(b"n", MutationKind::Max(KvValue::U64(12))).unwrap();
    assert_eq!(world.value(b"n"), Some(KvValue::U64(12)));
    world.mutate(b"min", MutationKind::Min(KvValue::U64(3))).unwrap();
    assert_eq!(world.value(b"min"), Some(KvValue::U64(3)));
}

#[test]
fn numbers_do_not_combine_with_other_values() {
    let mut world = World::open();
    world.mutate(b"t", MutationKind::SetValue(bytes("v"))).unwrap();
    let text = |result: Result<(), SqliteBackendError>| result.unwrap_err().message();
    assert_eq!(
        text(world.mutate(b"t", sum(KvValue::U64(1), vec![], vec![], false))),
        "Failed to perform 'sum' mutation on a non-U64 value in the database"
    );
    assert_eq!(
        text(world.mutate(b"t", MutationKind::Max(bytes("v")))),
        "Failed to perform 'max' mutation on a non-U64 operand"
    );
    assert_eq!(world.value(b"t"), Some(bytes("v")));
}

#[test]
fn operands_are_summed() {
    let mut world = World::open();
    let add = |n| sum(KvValue::V8(big(n)), vec![], vec![], false);
    world.mutate(b"b", add(-3)).unwrap();
    world.mutate(b"b", add(10)).unwrap();
    assert_eq!(world.value(b"b"), Some(KvValue::V8(big(7))));
    let limited = |n, clamp| sum(KvValue::V8(big(n)), big(0), big(20), clamp);
    world.mutate(b"b", limited(13, false)).unwrap();
    assert_eq!(world.value(b"b"), Some(KvValue::V8(big(20))));
    assert!(matches!(
        world.mutate(b"b", limited(1, false)),
        Err(SqliteBackendError::SumOutOfRange)
    ));
    world.mutate(b"b", limited(-100, true)).unwrap();
    assert_eq!(world.value(b"b"), Some(KvValue::V8(big(0))));
    world.mutate(b"u", MutationKind::SetValue(KvValue::U64(5))).unwrap();
    world.mutate(b"u", add(6)).unwrap();
    assert_eq!(world.value(b"u"), Some(KvValue::U64(11)));
}

#[test]
fn doubles_are_summed() {
    let mut world = World::open();
    let add = |x, clamp| sum(KvValue::V8(number(x)), number(-1.0), number(4.0), clamp);
    world.mutate(b"x", add(1.5, false)).unwrap();
    world.mutate(b"x", add(2.0, false)).unwrap();
    assert_eq!(world.value(b"x"), Some(KvValue::V8(number(3.5))));
    assert!(matches!(
        world.mutate(b"x", add(2.0, false)),
        Err(SqliteBackendError::SumOutOfRange)
    ));
    world.mutate(b"x", add(2.0, true)).unwrap();
    assert_eq!(world.value(b"x"), Some(KvValue::V8(number(4.0))));
    world.mutate(b"x", add(-9.0, true)).unwrap();
    assert_eq!(world.value(b"x"), Some(KvValue::V8(number(-1.0))));
}

#[test]
fn sums_check_their_operands() {
    let mut world = World::open();
    world.mutate(b"b", sum(KvValue::V8(big(1)), vec![], vec![], false)).unwrap();
    let mut text = |kind| world.mutate(b"b", kind).unwrap_err().message();
    assert_eq!(
        text(sum(bytes("v"), vec![], vec![], false)),
        "Some of the parameters are not valid V8 values"
    );
    assert_eq!(
        text(sum(KvValue::V8(big(1)), vec![b'?'], vec![], false)),
        "Some of the parameters are not valid V8 values"
    );
    assert_eq!(
        text(sum(KvValue::V8(big(1)), number(0.0), vec![], false)),
        "Min/max parameters have different types than the operand"
    );
    assert_eq!(
        text(sum(KvValue::V8(number(1.0)), vec![], vec![], false)),
        "Cannot sum BigInt with Number"
    );
    world.mutate(b"t", MutationKind::SetValue(bytes("v"))).unwrap();
    let summed = world.mutate(b"t", sum(KvValue::V8(big(1)), vec![], vec![], false));
    assert_eq!(summed.unwrap_err().message(), "not an operand");
}

#[test]
fn a_suffixed_key_is_set() {
    let mut world = World::open();
    world.drawn = 5;
    let stamp = world
        .write(
            vec![],
            vec![mutation(b"log", MutationKind::SetSuffixVersionstampedKey(bytes("v")))],
            vec![],
        )
        .unwrap()
        .unwrap();
    assert!(world.get(b"log").is_none());
    let entry = world.get(&versionstamped_key(&b"log".to_vec(), 5)).unwrap();
    assert_eq!((entry.value, entry.versionstamp), (bytes("v"), stamp));
}

#[test]
fn a_batch_gives_each_write_its_result() {
    let mut world = World::open();
    let writes = vec![
        AtomicWrite { checks: vec![], mutations: vec![set(b"a", bytes("x"))], enqueues: vec![] },
        AtomicWrite {
            checks: vec![check(b"a", None)],
            mutations: vec![set(b"a", bytes("y"))],
            enqueues: vec![],
        },
        AtomicWrite {
            checks: vec![],
            mutations: vec![
                set(b"b", bytes("kept")),
                mutation(b"a", MutationKind::Min(KvValue::U64(1))),
                set(b"c", bytes("never")),
            ],
            enqueues: vec![enqueue(b"m", 0, None, vec![])],
        },
        AtomicWrite {
            checks: vec![check(b"a", Some(version_to_versionstamp(1)))],
            mutations: vec![set(b"d", bytes("z")), mutation(b"e", MutationKind::Delete)],
            enqueues: vec![enqueue(b"n", 0, None, vec![])],
        },
    ];
    let end = world.batch(&writes);
    let stamp = |n| version_to_versionstamp(n);
    assert_eq!(end.results.len(), 4);
    assert_eq!(end.results[0].as_ref().unwrap().as_ref().unwrap().versionstamp, stamp(1));
    assert!(end.results[1].as_ref().unwrap().is_none());
    assert!(matches!(end.results[2], Err(SqliteBackendError::TypeMismatch(_))));
    assert_eq!(end.results[3].as_ref().unwrap().as_ref().unwrap().versionstamp, stamp(3));
    assert!(end.schedule_dequeue);
    let told: Vec<(Vec<u8>, Versionstamp)> =
        end.updates.into_iter().map(|u| (u.key, u.versionstamp)).collect();
    let expected =
        vec![(b"a".to_vec(), stamp(1)), (b"d".to_vec(), stamp(3)), (b"e".to_vec(), stamp(3))];
    assert_eq!(told, expected);
    assert_eq!(world.value(b"b"), Some(bytes("kept")));
    assert!(world.get(b"c").is_none());
    assert_eq!(world.count("queue"), 1);
}

#[test]
fn what_was_queued_is_delivered() {
    let mut world = World::open();
    let enqueues = vec![
        enqueue(b"later", 2000, None, vec![]),
        enqueue(b"first", 1000, Some(vec![7]), vec![b"k".to_vec()]),
    ];
    let end = world.batch(&vec![AtomicWrite { checks: vec![], mutations: vec![], enqueues }]);
    assert!(end.schedule_dequeue);
    assert_eq!(world.next_ready(), Some(1000));
    let texts: Vec<(String, String)> =
        world.ready().into_iter().map(|(_, _, schedule, keys)| (schedule, keys)).collect();
    assert_eq!(
        texts,
        vec![
            ("[7]".to_string(), "[[107]]".to_string()),
            ("[100,1000,5000,30000,60000]".to_string(), "[]".to_string()),
        ]
    );
    let early = world.dequeue(999);
    assert!(early.message.is_none());
    assert_eq!(early.next_ready_ms, Some(1000));
    let output = world.dequeue(5000);
    let message = output.message.unwrap();
    assert_eq!(message.payload, b"first".to_vec());
    assert_eq!(output.next_ready_ms, Some(2000));
    assert_eq!(world.running(), vec![(6000, message.id.text())]);
    let output = world.dequeue(5000);
    assert_eq!(output.message.unwrap().payload, b"later".to_vec());
    assert_eq!(output.next_ready_ms, None);
    assert_eq!(world.next_ready(), None);
    assert!(world.dequeue(5000).message.is_none());
}

#[test]
fn messages_get_names_of_their_own() {
    let mut world = World::open();
    let enqueues = (0..20).map(|_| enqueue(b"m", 0, None, vec![])).collect();
    world.write(vec![], vec![], enqueues).unwrap();
    let mut names = vec![];
    for _ in 0..20 {
        let id = world.dequeue(0).message.unwrap().id.text();
        assert_eq!(id.len(), 36);
        assert!(uuid::Uuid::parse_str(&id).is_ok());
        assert!(!names.contains(&id));
        names.push(id);
    }
}

#[test]
fn a_delivered_message_is_gone() {
    let mut world = World::open();
    world.write(vec![], vec![], vec![enqueue(b"m", 0, None, vec![])]).unwrap();
    let id = world.dequeue(0).message.unwrap().id;
    assert!(!world.finish(10, &id, true).unwrap());
    assert_eq!((world.count("queue"), world.count("queue_running")), (0, 0));
    assert!(!world.finish(10, &id, true).unwrap());
    assert!(!world.finish(10, &id, false).unwrap());
}

#[test]
fn a_failed_delivery_is_tried_again_and_then_given_up() {
    let mut world = World::open();
    let keys = vec![b"dead".to_vec(), b"letter".to_vec()];
    world.write(vec![], vec![], vec![enqueue(b"m", 0, Some(vec![100, 200]), keys)]).unwrap();
    let version = world.version();
    let mut now = 0;
    for (wait, left) in [(100, "[200]"), (200, "[]")] {
        let message = world.dequeue(now).message.unwrap();
        assert_eq!(message.payload, b"m".to_vec());
        assert!(world.finish(now, &message.id, false).unwrap());
        assert_eq!(world.count("queue_running"), 0);
        let ready = world.ready();
        assert_eq!(ready.len(), 1);
        assert_eq!((ready[0].0, ready[0].2.as_str()), (now + wait, left));
        now += wait;
    }
    assert_eq!(world.version(), version);
    world.drawn = 3;
    let message = world.dequeue(now).message.unwrap();
    assert!(!world.finish(now, &message.id, false).unwrap());
    assert_eq!((world.count("queue"), world.count("queue_running")), (0, 0));
    assert_eq!(world.version(), version + 3);
    for key in [&b"dead"[..], &b"letter"[..]] {
        let entry = world.get(key).unwrap();
        assert_eq!(entry.value, KvValue::V8(b"m".to_vec()));
        assert_eq!(entry.versionstamp, version_to_versionstamp(version + 3));
    }
}

#[test]
fn texts_that_are_not_json_are_reported() {
    let mut world = World::open();
    world.write(vec![], vec![], vec![enqueue(b"m", 0, Some(vec![]), vec![])]).unwrap();
    let id = world.dequeue(0).message.unwrap().id;
    world.conn.execute("update queue_running set keys_if_undelivered = '[[300]]'", []).unwrap();
    assert!(matches!(
        world.finish(0, &id, false),
        Err(SqliteBackendError::GenericError(text)) if text.contains("300")
    ));
    world.conn.execute("update queue_running set backoff_schedule = '[1,'", []).unwrap();
    assert!(matches!(
        world.finish(0, &id, false),
        Err(SqliteBackendError::GenericError(text)) if text.contains("EOF")
    ));
    assert_eq!(world.count("queue_running"), 1);
    world.conn.execute("update queue_running set backoff_schedule = 'null'", []).unwrap();
    world.conn.execute("update queue_running set keys_if_undelivered = ''", []).unwrap();
    let version = world.version();
    assert!(!world.finish(0, &id, false).unwrap());
    assert_eq!(world.count("queue_running"), 0);
    assert_eq!(world.version(), version);
}

#[test]
fn no_more_messages_are_delivered_than_may_run() {
    let mut world = World::open();
    world.write(vec![], vec![], vec![enqueue(b"m", 0, None, vec![])]).unwrap();
    for i in 0..100 {
        assert!(world.backend.messages_running.insert(QueueMessageId::new(format!("m{i}"))));
    }
    let output = world.dequeue(10);
    assert!(output.message.is_none());
    assert_eq!(output.next_ready_ms, Some(0));
    assert!(world.backend.messages_running.remove(&QueueMessageId::new("m7".to_string())));
    assert!(world.dequeue(10).message.is_some());
}

#[test]
fn the_running_messages_are_a_set() {
    let (mut backend, _) = SqliteBackend::new(true, false);
    let name = |text: &str| QueueMessageId::new(text.to_string());
    let running = &mut backend.messages_running;
    assert!(running.insert(name("a")));
    assert!(!running.insert(name("a")));
    assert!(running.insert(name("b")));
    assert_eq!(running.len(), 2);
    assert!(running.contains(&name("b").clone()));
    assert!(running.remove(&name("a")));
    assert!(!running.remove(&name("a")));
    assert_eq!(running.texts(), vec!["b".to_string()]);
}

#[test]
fn a_keepalive_puts_deadlines_off() {
    let mut world = World::open();
    let enqueues = (0..3).map(|i| enqueue(b"m", i, None, vec![])).collect();
    world.write(vec![], vec![], enqueues).unwrap();
    let first = world.dequeue(10).message.unwrap().id;
    let second = world.dequeue(10).message.unwrap().id;
    let third = world.dequeue(10).message.unwrap().id;
    world.backend.messages_running.insert(first.clone());
    world.backend.messages_running.insert(third.clone());
    world.backend.messages_running.insert(QueueMessageId::new("unknown".to_string()));
    world.keep_alive(7000);
    let mut expected =
        vec![(5001, second.text()), (12000, first.text()), (12000, third.text())];
    let mut found = world.running();
    expected.sort();
    found.sort();
    assert_eq!(found, expected);
}

#[test]
fn a_cleanup_requeues_the_overdue() {
    let mut world = World::open();
    let enqueues = (0..150).map(|_| enqueue(b"m", 0, Some(vec![50]), vec![])).collect();
    world.write(vec![], vec![], enqueues).unwrap();
    for _ in 0..150 {
        assert!(world.dequeue(0).message.is_some());
    }
    assert_eq!(world.clean_up(4999), 1);
    assert_eq!(world.count("queue_running"), 150);
    assert_eq!(world.dequeues, 0);
    assert_eq!(world.clean_up(5000), 3);
    assert_eq!((world.count("queue"), world.count("queue_running")), (150, 0));
    assert_eq!(world.dequeues, 150);
    assert_eq!(world.next_ready(), Some(5050));
}

#[test]
fn expired_values_are_collected() {
    let mut world = World::open();
    let mutations = vec![
        set_until(b"past", bytes("v"), 100),
        set_until(b"now", bytes("v"), 200),
        set_until(b"later", bytes("v"), 201),
        set(b"forever", bytes("v")),
        set_until(b"before", bytes("v"), -7),
    ];
    world.write(vec![], mutations, vec![]).unwrap();
    assert_eq!(world.collect(99), (Some(100), vec![]));
    assert_eq!(world.version(), 1);
    let (next, mut updates) = world.collect(200);
    updates.sort();
    let stamp = version_to_versionstamp(2);
    assert_eq!(next, Some(201));
    assert_eq!(updates, vec![(b"now".to_vec(), stamp), (b"past".to_vec(), stamp)]);
    assert_eq!(world.version(), 2);
    assert!(world.get(b"past").is_none());
    for key in [&b"later"[..], &b"forever"[..], &b"before"[..]] {
        assert!(world.get(key).is_some());
    }
    assert_eq!(world.collect(1000), (None, vec![(b"later".to_vec(), version_to_versionstamp(3))]));
    assert_eq!(world.collect(i64::MAX), (None, vec![]));
}

#[test]
fn a_mutated_number_does_not_expire() {
    let mut world = World::open();
    world.write(vec![], vec![set_until(b"n", KvValue::U64(1), 10)], vec![]).unwrap();
    world.mutate(b"n", sum(KvValue::U64(1), vec![], vec![], false)).unwrap();
    assert_eq!(world.collect(100), (None, vec![]));
    assert_eq!(world.value(b"n"), Some(KvValue::U64(2)));
}

#[test]
fn a_deadline_before_the_epoch_is_refused() {
    let mut world = World::open();
    let result = world.write(vec![], vec![], vec![enqueue(b"m", -1, None, vec![])]);
    assert!(matches!(result, Err(SqliteBackendError::SqliteError(_))));
    assert_eq!(world.count("queue"), 0);
}

#[test]
fn a_database_that_is_only_read_refuses_writes() {
    for (forced, connection) in [(true, false), (false, true), (true, true)] {
        let (backend, task) = SqliteBackend::new(forced, connection);
        assert!(backend.readonly);
        assert!(task.is_none());
        let write = || AtomicWrite { checks: vec![], mutations: vec![], enqueues: vec![] };
        match backend.atomic_write_batched(&vec![write(), write()]) {
            BatchStart::Refused(results) => {
                assert_eq!(results.len(), 2);
                for result in results {
                    assert!(matches!(result, Err(SqliteBackendError::WriteDisabled)));
                }
            }
            BatchStart::Begun(_) => panic!("begun"),
        };
    }
}

#[test]
fn the_versionstamps_of_a_batch_climb() {
    let mut world = World::open();
    world.mutate(b"n", MutationKind::SetValue(bytes("no number"))).unwrap();
    world.drawn = 2;
    let write = |mutations, enqueues| AtomicWrite { checks: vec![], mutations, enqueues };
    let writes = vec![
        write(vec![set(b"a", bytes("x"))], vec![]),
        write(vec![set(b"b", bytes("y"))], vec![enqueue(b"m", -1, None, vec![])]),
        write(vec![mutation(b"n", MutationKind::Max(KvValue::U64(1)))], vec![]),
        write(vec![], vec![]),
        write(vec![set(b"a", bytes("z"))], vec![]),
    ];
    let end = world.batch(&writes);
    let mut stamps = vec![version_to_versionstamp(1)];
    for result in end.results.iter().flatten() {
        stamps.push(result.as_ref().unwrap().versionstamp);
    }
    let expected: Vec<Versionstamp> =
        [1, 3, 9, 11].into_iter().map(version_to_versionstamp).collect();
    assert_eq!(stamps, expected);
    assert!(stamps.windows(2).all(|pair| pair[0] < pair[1]));
    assert!(matches!(end.results[1], Err(SqliteBackendError::SqliteError(_))));
    assert!(matches!(end.results[2], Err(SqliteBackendError::TypeMismatch(_))));
    assert_eq!(world.version(), 11);
    for (key, value, version) in [(b"a", "z", 11), (b"b", "y", 5), (b"n", "no number", 1)] {
        let entry = world.get(key).unwrap();
        assert_eq!(entry.value, bytes(value));
        assert_eq!(entry.versionstamp, version_to_versionstamp(version));
    }
}

#[test]
fn no_entry_is_later_than_its_snapshot() {
    let mut world = World::open();
    for key in [b"a", b"b", b"c"] {
        world.mutate(key, MutationKind::SetValue(bytes("x"))).unwrap();
    }
    let output = world.read(vec![range(b"", b"z", 10, false)]).unwrap();
    assert_eq!(output.versionstamp, version_to_versionstamp(3));
    let entries = &output.ranges[0].entries;
    assert_eq!(entries.len(), 3);
    assert!(entries.iter().all(|entry| entry.versionstamp <= output.versionstamp));
    assert_eq!(entries[2].versionstamp, output.versionstamp);
}

#[test]
fn equal_reads_give_the_same() {
    let mut world = World::open();
    for (key, n) in [(b"a", 1), (b"b", 2), (b"c", 3)] {
        world.mutate(key, MutationKind::SetValue(KvValue::U64(n))).unwrap();
    }
    let mut read = || {
        let output = world.read(vec![range(b"a", b"c", 5, true), only(b"c")]).unwrap();
        let mut found = vec![];
        for range in output.ranges {
            for entry in range.entries {
                found.push((entry.key, entry.value, entry.versionstamp));
            }
        }
        (found, output.versionstamp)
    };
    let first = read();
    assert_eq!(first.0.len(), 3);
    assert_eq!(first.0[0].0, b"b".to_vec());
    assert_eq!(read(), first);
}

#[test]
fn a_read_of_what_is_not_there_fails() {
    let mut world = World::open();
    world.mutate(b"a", MutationKind::SetValue(bytes("x"))).unwrap();
    world.conn.execute("drop table kv", []).unwrap();
    let result = world.read(vec![only(b"a")]);
    assert!(matches!(result, Err(SqliteBackendError::SqliteError(e)) if e.message.contains("kv")));
}

#[test]
fn collecting_again_changes_nothing() {
    let mut world = World::open();
    let mutations = vec![set_until(b"a", bytes("v"), 100), set_until(b"b", bytes("v"), 300)];
    world.write(vec![], mutations, vec![]).unwrap();
    let stamp = version_to_versionstamp(2);
    assert_eq!(world.collect(200), (Some(300), vec![(b"a".to_vec(), stamp)]));
    for now in [200, 150, 299] {
        assert_eq!(world.collect(now), (Some(300), vec![]));
        assert_eq!(world.version(), 2);
        assert_eq!(world.count("kv"), 1);
    }
}

#[test]
fn a_cleanup_takes_the_overdue_alone() {
    let mut world = World::open();
    let enqueues = vec![
        enqueue(b"again", 0, Some(vec![50, 60]), vec![b"k".to_vec()]),
        enqueue(b"stored", 1, Some(vec![]), vec![b"k".to_vec(), b"l".to_vec()]),
        enqueue(b"dropped", 1, Some(vec![]), vec![]),
        enqueue(b"alive", 2, Some(vec![70]), vec![b"k".to_vec()]),
        enqueue(b"waiting", 9000, Some(vec![80]), vec![]),
    ];
    world.write(vec![], vec![], enqueues).unwrap();
    let mut alive = None;
    for _ in 0..4 {
        let message = world.dequeue(10).message.unwrap();
        if message.payload == b"alive".to_vec() {
            alive = Some(message.id.text());
        }
    }
    assert_eq!(world.clean_up(5001), 2);
    assert_eq!(world.running(), vec![(5002, alive.unwrap())]);
    let ready = world.ready();
    assert_eq!(ready.len(), 2);
    let again = (5051, b"again".to_vec(), "[60]".to_string(), "[[107]]".to_string());
    assert_eq!(ready[0], again);
    assert_eq!((ready[1].0, ready[1].1.as_slice()), (9000, &b"waiting"[..]));
    assert_eq!(world.dequeues, 1);
    for key in [b"k", b"l"] {
        assert_eq!(world.value(key), Some(KvValue::V8(b"stored".to_vec())));
    }
    assert_eq!(world.count("kv"), 2);
}

#[test]
fn the_last_of_two_payloads_stays_under_their_key() {
    let mut world = World::open();
    let keys = || vec![b"k".to_vec()];
    let enqueues =
        vec![enqueue(b"late", 5, Some(vec![]), keys()), enqueue(b"early", 3, Some(vec![]), keys())];
    world.write(vec![], vec![], enqueues).unwrap();
    assert_eq!(world.dequeue(10).message.unwrap().payload, b"early".to_vec());
    assert_eq!(world.dequeue(10).message.unwrap().payload, b"late".to_vec());
    assert_eq!(world.clean_up(6000), 2);
    assert_eq!(world.dequeues, 0);
    let entry = world.get(b"k").unwrap();
    assert_eq!(entry.value, KvValue::V8(b"late".to_vec()));
    assert_eq!(entry.versionstamp, version_to_versionstamp(3));
}

#[test]
fn a_message_that_is_kept_alive_outlives_a_cleanup() {
    let mut world = World::open();
    let enqueues = vec![
        enqueue(b"kept", 0, Some(vec![50]), vec![]),
        enqueue(b"left", 1, Some(vec![50]), vec![]),
    ];
    world.write(vec![], vec![], enqueues).unwrap();
    let kept = world.dequeue(10).message.unwrap().id;
    assert!(world.dequeue(10).message.is_some());
    world.backend.messages_running.insert(kept.clone());
    world.keep_alive(4000);
    assert_eq!(world.clean_up(8999), 2);
    assert_eq!(world.running(), vec![(9000, kept.text())]);
    assert_eq!(world.dequeues, 1);
    assert_eq!(world.clean_up(9000), 2);
    assert_eq!(world.running(), vec![]);
    assert_eq!(world.dequeues, 2);
    assert_eq!(world.count("queue"), 2);
}

#[test]
fn a_keepalive_uses_up_no_waiting_time() {
    let mut world = World::open();
    let keys = vec![b"k".to_vec()];
    world.write(vec![], vec![], vec![enqueue(b"m", 0, Some(vec![10, 20]), keys)]).unwrap();
    let mut names = vec![];
    for (now, ts, left) in [(100, 110, "[20]"), (200, 220, "[]")] {
        let id = world.dequeue(now).message.unwrap().id;
        world.backend.messages_running.insert(id.clone());
        world.keep_alive(now);
        assert!(world.finish(now, &id, false).unwrap());
        world.backend.messages_running.remove(&id);
        let row = (ts, b"m".to_vec(), left.to_string(), "[[107]]".to_string());
        assert_eq!(world.ready(), vec![row]);
        names.push(id.text());
    }
    let id = world.dequeue(300).message.unwrap().id;
    names.push(id.text());
    assert!(!world.finish(300, &id, false).unwrap());
    assert_eq!((world.count("queue"), world.count("queue_running")), (0, 0));
    assert_eq!(world.value(b"k"), Some(KvValue::V8(b"m".to_vec())));
    assert!(names.iter().all(|name| *name == names[0]));
    assert_eq!(world.collect(i64::MAX), (None, vec![]));
}

#[test]
fn a_connection_that_was_used_gets_its_tables() {
    let conn = Connection::open_in_memory().unwrap();
    conn.execute("create table other (n integer)", []).unwrap();
    conn.execute("insert into other values (1), (2), (3)", []).unwrap();
    let (backend, task) = SqliteBackend::new(false, false);
    let mut world = World { conn, backend, drawn: 1, dequeues: 0 };
    let mut task = task.unwrap();
    let mut reply = Reply::Begin;
    let mut changed = vec![];
    loop {
        assert!(task.accepts(&reply));
        match task.resume(reply) {
            Step::Ask(request) => {
                reply = world.perform(request);
                if let Reply::Changed(n) = &reply {
                    changed.push(*n);
                }
            }
            Step::Done(result) => {
                assert!(result.is_ok());
                break;
            }
            Step::ClockOverflow => panic!("no time is involved"),
        }
    }
    assert_eq!(changed, vec![3, 1, 1, 1]);
    assert_eq!((world.version(), world.count("kv"), world.count("other")), (0, 0, 3));
    world.mutate(b"a", MutationKind::SetValue(bytes("x"))).unwrap();
    assert_eq!(world.value(b"a"), Some(bytes("x")));
}

#[test]
fn the_first_unknown_encoding_is_reported() {
    let mut world = World::open();
    for key in [b"a", b"b", b"c", b"d", b"e"] {
        world.mutate(key, MutationKind::SetValue(bytes("x"))).unwrap();
    }
    for (key, encoding) in [(b"b", 77), (b"d", 99)] {
        let text = "update kv set v_encoding = ? where k = ?";
        assert_eq!(world.conn.execute(text, (encoding, &key[..])).unwrap(), 1);
    }
    let mut fault = |ranges| match world.read(ranges) {
        Ok(output) => Ok(output.ranges.iter().map(|range| range.entries.len()).sum::<usize>()),
        Err(SqliteBackendError::UnknownValueEncoding(n)) => Err(n),
        Err(_) => panic!("another error"),
    };
    assert_eq!(fault(vec![range(b"a", b"z", 5, false)]), Err(77));
    assert_eq!(fault(vec![range(b"a", b"z", 5, true)]), Err(99));
    assert_eq!(fault(vec![range(b"a", b"z", 2, false)]), Err(77));
    assert_eq!(fault(vec![range(b"a", b"z", 1, false)]), Ok(1));
    assert_eq!(fault(vec![range(b"a", b"z", 1, true)]), Ok(1));
    assert_eq!(fault(vec![range(b"c", b"z", 1, false), only(b"e")]), Ok(2));
    assert_eq!(fault(vec![only(b"a"), range(b"c", b"z", 2, false), only(b"b")]), Err(99));
    assert_eq!(fault(vec![only(b"b"), only(b"d")]), Err(77));
}

#[test]
fn a_batch_tells_of_the_messages_of_its_commits() {
    let mut world = World::open();
    world.mutate(b"a", MutationKind::SetValue(bytes("no number"))).unwrap();
    let plain = || AtomicWrite { checks: vec![], mutations: vec![], enqueues: vec![] };
    let queues = || AtomicWrite { enqueues: vec![enqueue(b"m", 0, None, vec![])], ..plain() };
    let checked = || AtomicWrite { checks: vec![check(b"a", None)], ..queues() };
    let fails = || AtomicWrite {
        mutations: vec![mutation(b"a", MutationKind::Min(KvValue::U64(1)))],
        ..queues()
    };
    for (writes, told) in [
        (vec![], false),
        (vec![plain(), plain()], false),
        (vec![checked(), fails(), plain()], false),
        (vec![checked(), queues(), fails(), plain()], true),
        (vec![queues(), queues()], true),
    ] {
        let end = world.batch(&writes);
        assert_eq!(end.schedule_dequeue, told);
        let last = version_to_versionstamp(world.version());
        for commit in end.results.iter().flatten().flatten() {
            assert!(commit.versionstamp <= last);
        }
    }
    assert_eq!(world.count("queue"), 3);
}

#[test]
fn the_names_of_messages_are_random_uuids() {
    let mut world = World::open();
    let enqueues = (0..20).map(|_| enqueue(b"m", 0, None, vec![])).collect();
    world.write(vec![], vec![], enqueues).unwrap();
    for _ in 0..20 {
        let id = world.dequeue(0).message.unwrap().id.text();
        let letters: Vec<char> = id.chars().collect();
        assert_eq!(letters.len(), 36);
        assert_eq!(letters[14], '4');
        assert!(['8', '9', 'a', 'b'].contains(&letters[19]));
        for (i, c) in letters.into_iter().enumerate() {
            if [8, 13, 18, 23].contains(&i) {
                assert_eq!(c, '-');
            } else {
                assert!(c.is_ascii_digit() || ('a'..='f').contains(&c));
            }
        }
    }
}
