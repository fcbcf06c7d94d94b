use denokv_sqlite::backend::{BatchStart, SqliteBackend};
use denokv_sqlite::batch::{finish_batch, BatchOutput, BatchTask};
use denokv_sqlite::clock::MAX_MILLIS;
use denokv_sqlite::error::{ErrorCode, SqliteBackendError, SqliteFailure};
use denokv_sqlite::expiry::CollectTask;
use denokv_sqlite::queue::{DequeueTask, NextReadyTask, QueueMessageId, RunningMessages};
use denokv_sqlite::read::{scan_entries, ReadRange, SnapshotTask};
use denokv_sqlite::request::{KvRow, QueuedMessage, Reply, Request, SqlInteger, Statement, Step};
use denokv_sqlite::requeue::{
    give_up_with, requeue_message, reschedule_with, RequeuePhase, Rescheduling,
};
use denokv_sqlite::running::{CleanupTask, FinishTask, KeepaliveTask};
use denokv_sqlite::schema::{migration, MigrationTask, MIGRATION_COUNT};
use denokv_sqlite::sql::statement_text;
use denokv_sqlite::sum::SumOperand;
use denokv_sqlite::value::KvValue;
use denokv_sqlite::versionstamp::version_to_versionstamp;
use denokv_sqlite::write::{AtomicWrite, Check, CommitResult, Enqueue, Mutation, MutationKind};
use denokv_sqlite::write_task::{atomic_write_once, queue_message};

fn failure() -> SqliteFailure {
    SqliteFailure { code: ErrorCode::Other, message: "broken".to_string() }
}

fn failed<T>(step: Step<T>) -> bool {
    matches!(
        step,
        Step::Done(Err(SqliteBackendError::SqliteError(SqliteFailure { message, .. })))
            if message == "broken"
    )
}

fn asked<T>(step: Step<T>) -> Request {
    match step {
        Step::Ask(request) => request,
        _ => panic!("nothing asked"),
    }
}

fn message(ts: u64, schedule: &str, keys: &str) -> QueuedMessage {
    QueuedMessage {
        ts,
        id: "m".to_string(),
        data: vec![1, 2],
        backoff_schedule: schedule.to_string(),
        keys_if_undelivered: keys.to_string(),
    }
}

fn empty_write() -> AtomicWrite {
    AtomicWrite { checks: vec![], mutations: vec![], enqueues: vec![] }
}

fn full_write() -> AtomicWrite {
    let number = || KvValue::V8(vec![7]);
    AtomicWrite {
        checks: vec![Check { key: vec![1], versionstamp: None }],
        mutations: vec![
            Mutation {
                key: vec![1],
                kind: MutationKind::SetValue(KvValue::U64(1)),
                expire_at: Some(5),
            },
            Mutation {
                key: vec![2],
                kind: MutationKind::Min(KvValue::U64(1)),
                expire_at: None,
            },
            Mutation {
                key: vec![3],
                kind: MutationKind::Sum {
                    value: number(),
                    min_v8: vec![],
                    max_v8: vec![],
                    clamp: false,
                },
                expire_at: None,
            },
            Mutation { key: vec![4], kind: MutationKind::Delete, expire_at: None },
        ],
        enqueues: vec![Enqueue {
            payload: vec![9],
            deadline: 3,
            keys_if_undelivered: vec![],
            backoff_schedule: None,
        }],
    }
}

/// The reply of a database that is empty.
fn answer(request: &Request) -> Reply {
    match request {
        Request::Sql(Statement::GetVersion { .. }) => Reply::RowVersion(None),
        Request::Sql(Statement::IncrementDataVersion { increment }) => Reply::Version(*increment),
        Request::Sql(Statement::GetValue { .. }) => Reply::RowValue(None),
        Request::Sql(_) => Reply::Changed(1),
        Request::DrawNumber { low, .. } => Reply::Drawn(*low),
        Request::ReadSum { .. } => Reply::SumRead {
            operand: Ok(SumOperand::Number(0)),
            min: Ok(None),
            max: Ok(None),
        },
        Request::WriteSum { .. } => Reply::SumWritten(KvValue::V8(vec![7])),
        _ => panic!("not asked of an empty database"),
    }
}

#[test]
fn a_write_asks_for_one_thing_after_another() {
    let write = full_write();
    let mut task = atomic_write_once(&write);
    let mut reply = Reply::Begin;
    let mut requests = vec![];
    let output = loop {
        assert!(task.accepts(&reply));
        match task.resume(reply) {
            Step::Ask(request) => {
                reply = answer(&request);
                requests.push(request);
            }
            Step::Done(result) => {
                let output = result.unwrap();
                break output;
            }
            Step::ClockOverflow => panic!("no time is involved"),
        }
    };
    assert!(output.has_enqueues);
    assert_eq!(output.commit, Some(CommitResult { versionstamp: version_to_versionstamp(1) }));
    assert_eq!(requests.len(), 12);
    assert!(requests.len() <= 1 + 2 + 6 * 4 + 1);
    assert_eq!(requests[0], Request::Sql(Statement::GetVersion { key: vec![1] }));
    assert_eq!(requests[1], Request::DrawNumber { low: 1, high: 10 });
    assert_eq!(
        requests[3],
        Request::Sql(Statement::SetRow {
            key: vec![1],
            value: vec![1, 0, 0, 0, 0, 0, 0, 0],
            encoding: 2,
            version: 1,
            expiration_ms: 5,
        })
    );
    assert_eq!(
        requests[5],
        Request::Sql(Statement::SetRow {
            key: vec![2],
            value: vec![1, 0, 0, 0, 0, 0, 0, 0],
            encoding: 2,
            version: 1,
            expiration_ms: -1,
        })
    );
    assert!(matches!(
        &requests[11],
        Request::Sql(Statement::AddReady { ts: SqlInteger::Unsigned(3), data, .. })
            if *data == vec![9]
    ));
}

#[test]
fn a_failed_statement_ends_a_write() {
    let write = full_write();
    for statements in 0..9 {
        let mut task = atomic_write_once(&write);
        let mut reply = Reply::Begin;
        let mut left = statements;
        loop {
            let request = asked(task.resume(reply));
            if matches!(request, Request::Sql(_)) {
                if left == 0 {
                    break;
                }
                left -= 1;
            }
            reply = answer(&request);
        }
        let reply = Reply::Failed(failure());
        assert!(task.accepts(&reply));
        assert!(failed(task.resume(reply)));
    }
}

#[test]
fn a_reply_of_another_kind_is_not_accepted() {
    let write = full_write();
    let task = atomic_write_once(&write);
    assert!(!task.accepts(&Reply::Changed(1)));
    assert!(!task.accepts(&Reply::Failed(failure())));
    let mut task = atomic_write_once(&write);
    task.resume(Reply::Begin);
    task.resume(Reply::RowVersion(None));
    for n in [0, 10, -1] {
        assert!(!task.accepts(&Reply::Drawn(n)));
    }
    task.resume(Reply::Drawn(9));
    task.resume(Reply::Version(9));
    for n in [0, 2] {
        assert!(!task.accepts(&Reply::Changed(n)));
    }
    task.resume(Reply::Changed(1));
    assert!(!task.accepts(&Reply::RowValue(Some((vec![1, 2], 2)))));
    assert!(task.accepts(&Reply::RowValue(Some((vec![1, 2], 3)))));
}

#[test]
fn a_failed_statement_ends_every_other_task() {
    let broken = || Reply::Failed(failure());
    let name = QueueMessageId::new("m".to_string());
    let mut running = RunningMessages::new();
    running.insert(name.clone());
    let requests = vec![ReadRange { start: vec![], end: vec![9], limit: 1, reverse: false }];

    let mut task = SnapshotTask::new(&requests);
    task.resume(Reply::Begin);
    assert!(failed(task.resume(broken())));
    let mut task = SnapshotTask::new(&requests);
    task.resume(Reply::Begin);
    task.resume(Reply::Rows(vec![], None));
    assert!(failed(task.resume(broken())));

    let mut task = DequeueTask::new(0, &running);
    task.resume(Reply::Begin);
    task.resume(Reply::Message(Some(message(0, "[]", "[]"))));
    task.resume(Reply::Changed(1));
    task.resume(Reply::Changed(1));
    assert!(failed(task.resume(broken())));

    let mut task = NextReadyTask::new();
    task.resume(Reply::Begin);
    assert!(failed(task.resume(broken())));

    let mut task = KeepaliveTask::new(0, &running);
    task.resume(Reply::Begin);
    assert!(failed(task.resume(broken())));

    for success in [true, false] {
        let mut task = FinishTask::new(0, &name, success);
        task.resume(Reply::Begin);
        assert!(failed(task.resume(broken())));
    }

    let mut task = CleanupTask::new(0);
    task.resume(Reply::Begin);
    assert!(failed(task.resume(broken())));
    let mut task = CleanupTask::new(0);
    task.resume(Reply::Begin);
    task.resume(Reply::Ids(vec!["m".to_string()]));
    assert!(failed(task.resume(broken())));

    let mut task = CollectTask::new(0);
    task.resume(Reply::Begin);
    task.resume(Reply::Keys(vec![vec![1]]));
    assert!(failed(task.resume(broken())));

    let mut task = MigrationTask::new();
    task.resume(Reply::Begin);
    task.resume(Reply::Changed(0));
    task.resume(Reply::SchemaVersion(None));
    assert!(failed(task.resume(broken())));
}

#[test]
fn a_failed_write_does_not_end_its_batch() {
    let writes = vec![empty_write(), empty_write()];
    let mut task = BatchTask::new(&writes);
    task.resume(Reply::Begin);
    task.resume(Reply::Drawn(2));
    task.resume(Reply::Failed(failure()));
    task.resume(Reply::Drawn(3));
    match task.resume(Reply::Version(3)) {
        Step::Done(Ok(output)) => {
            assert!(!output.has_enqueues);
            assert_eq!(output.results.len(), 2);
            assert!(matches!(&output.results[0], Err(SqliteBackendError::SqliteError(_))));
            assert_eq!(
                output.results[1].as_ref().unwrap().as_ref().unwrap().versionstamp,
                version_to_versionstamp(3)
            );
        }
        _ => panic!("not done"),
    }
}

#[test]
fn a_batch_without_writes_is_done_at_once() {
    let writes = vec![];
    let mut task = BatchTask::new(&writes);
    match task.resume(Reply::Begin) {
        Step::Done(Ok(output)) => assert!(output.results.is_empty() && !output.has_enqueues),
        _ => panic!("not done"),
    }
}

#[test]
fn the_first_write_gets_the_error_of_a_failed_batch() {
    let writes = vec![full_write(), empty_write(), empty_write()];
    let end = finish_batch(&writes, Err(SqliteBackendError::SqliteError(failure())));
    let texts: Vec<String> =
        end.results.into_iter().map(|result| result.unwrap_err().message()).collect();
    assert_eq!(texts, vec!["broken", "batch transaction failed", "batch transaction failed"]);
    assert!(!end.schedule_dequeue);
    assert!(end.updates.is_empty());
    let none = finish_batch(&vec![], Err(SqliteBackendError::DatabaseClosed));
    assert!(none.results.is_empty());
}

#[test]
fn only_commits_are_announced() {
    let writes = vec![full_write(), full_write(), full_write()];
    let stamp = version_to_versionstamp(4);
    let results = vec![
        Ok(None),
        Err(SqliteBackendError::SumOutOfRange),
        Ok(Some(CommitResult { versionstamp: stamp })),
    ];
    let end = finish_batch(&writes, Ok(BatchOutput { has_enqueues: false, results }));
    let keys: Vec<Vec<u8>> = end.updates.iter().map(|update| update.key.clone()).collect();
    assert_eq!(keys, vec![vec![1], vec![2], vec![3], vec![4]]);
    assert!(end.updates.iter().all(|update| update.versionstamp == stamp));
    assert!(!end.schedule_dequeue);
    assert_eq!(end.results.len(), 3);
}

#[test]
fn an_unknown_encoding_comes_before_a_row_that_cannot_be_read() {
    let row = |encoding| KvRow { key: vec![1], value: vec![5], encoding, version: 2 };
    let unknown = scan_entries(vec![row(3), row(8), row(9)], Some(failure()));
    assert!(matches!(unknown, Err(SqliteBackendError::UnknownValueEncoding(8))));
    let unread = scan_entries(vec![row(3)], Some(failure()));
    assert!(matches!(unread, Err(SqliteBackendError::SqliteError(_))));
    let read = scan_entries(vec![row(3), row(1)], None).unwrap();
    assert_eq!(read.entries.len(), 2);
    assert_eq!(read.entries[0].value, KvValue::Bytes(vec![5]));
    assert_eq!(read.entries[1].value, KvValue::V8(vec![5]));
    assert_eq!(read.entries[1].versionstamp, version_to_versionstamp(2));
}

#[test]
fn a_stored_number_has_eight_bytes() {
    let requests = vec![ReadRange { start: vec![], end: vec![9], limit: 9, reverse: true }];
    let mut task = SnapshotTask::new(&requests);
    assert_eq!(
        asked(task.resume(Reply::Begin)),
        Request::Sql(Statement::ScanRange { start: vec![], end: vec![9], limit: 9, reverse: true })
    );
    let row = |value: Vec<u8>, encoding| KvRow { key: vec![1], value, encoding, version: 2 };
    assert!(!task.accepts(&Reply::Rows(vec![row(vec![1], 2)], None)));
    assert!(task.accepts(&Reply::Rows(vec![row(vec![0; 8], 2)], None)));
    assert!(task.accepts(&Reply::Rows(vec![row(vec![], 9), row(vec![1], 2)], None)));
}

#[test]
fn a_message_is_queued_under_a_name() {
    let enqueue = Enqueue {
        payload: vec![4],
        deadline: -1,
        keys_if_undelivered: vec![vec![], vec![0, 255]],
        backoff_schedule: Some(vec![0, u32::MAX]),
    };
    assert_eq!(
        queue_message(&enqueue, "name".to_string()),
        Statement::AddReady {
            ts: SqlInteger::Unsigned(u64::MAX),
            id: "name".to_string(),
            data: vec![4],
            backoff_schedule: "[0,4294967295]".to_string(),
            keys_if_undelivered: "[[],[0,255]]".to_string(),
        }
    );
}

#[test]
fn a_message_waits_for_the_first_of_its_times() {
    match reschedule_with(message(0, "", "k"), 40, Ok(Some(vec![2, 3, 4]))) {
        Rescheduling::Decided(RequeuePhase::AddingReady { id }, Step::Ask(request)) => {
            assert_eq!(id, "m");
            assert_eq!(
                request,
                Request::Sql(Statement::AddReady {
                    ts: SqlInteger::Signed(42),
                    id: "m".to_string(),
                    data: vec![1, 2],
                    backoff_schedule: "[3,4]".to_string(),
                    keys_if_undelivered: "k".to_string(),
                })
            );
        }
        _ => panic!("not queued again"),
    }
}

#[test]
fn a_message_without_a_waiting_time_is_given_up() {
    for schedule in [Ok(None), Ok(Some(vec![]))] {
        match reschedule_with(message(0, "", "k"), 0, schedule) {
            Rescheduling::ReadKeys(same) => assert_eq!(same, message(0, "", "k")),
            _ => panic!("decided"),
        }
    }
    assert!(matches!(
        reschedule_with(message(0, "", ""), 0, Ok(None)),
        Rescheduling::Decided(RequeuePhase::Removing { requeued: false }, Step::Ask(_))
    ));
    assert!(matches!(
        reschedule_with(message(0, "", ""), 0, Err("bad".to_string())),
        Rescheduling::Decided(
            RequeuePhase::Finished,
            Step::Done(Err(SqliteBackendError::GenericError(text)))
        ) if text == "bad"
    ));
    assert!(matches!(
        give_up_with(message(0, "", ""), Err("bad".to_string())),
        (RequeuePhase::Finished, Step::Done(Err(SqliteBackendError::GenericError(text))))
            if text == "bad"
    ));
    assert!(matches!(
        give_up_with(message(0, "", ""), Ok(vec![vec![1]])),
        (
            RequeuePhase::Drawing { message },
            Step::Ask(Request::DrawNumber { low: 1, high: 10 })
        ) if message.keys == vec![vec![1]] && message.data == vec![1, 2]
    ));
}

#[test]
fn a_requeueing_reads_the_texts_of_its_message() {
    let mut task = requeue_message("m".to_string(), 10);
    assert_eq!(
        asked(task.resume(Reply::Begin)),
        Request::Sql(Statement::RunningById { id: "m".to_string() })
    );
    let reply = Reply::Message(Some(message(0, "[5, 6]", "[]")));
    assert!(matches!(
        asked(task.resume(reply)),
        Request::Sql(Statement::AddReady { ts: SqlInteger::Signed(15), backoff_schedule, .. })
            if backoff_schedule == "[6]"
    ));
    assert_eq!(
        asked(task.resume(Reply::Changed(1))),
        Request::Sql(Statement::RemoveRunning { id: "m".to_string() })
    );
    assert!(!task.accepts(&Reply::Changed(0)));
    assert!(matches!(task.resume(Reply::Changed(1)), Step::Done(Ok(true))));

    let mut task = requeue_message("m".to_string(), 10);
    task.resume(Reply::Begin);
    task.resume(Reply::Message(Some(message(0, "null", "[[1],[2,3]]"))));
    task.resume(Reply::Drawn(4));
    for key in [vec![1], vec![2, 3]] {
        let reply = if key.len() == 1 { Reply::Version(8) } else { Reply::Changed(1) };
        assert_eq!(
            asked(task.resume(reply)),
            Request::Sql(Statement::SetRow {
                key,
                value: vec![1, 2],
                encoding: 1,
                version: 8,
                expiration_ms: -1,
            })
        );
    }
    task.resume(Reply::Changed(1));
    assert!(matches!(task.resume(Reply::Changed(1)), Step::Done(Ok(false))));
}

#[test]
fn a_time_out_of_range_stops_a_task() {
    let mut task = requeue_message("m".to_string(), MAX_MILLIS);
    task.resume(Reply::Begin);
    let reply = Reply::Message(Some(message(0, "[1]", "")));
    assert!(matches!(task.resume(reply), Step::ClockOverflow));

    let mut task = requeue_message("m".to_string(), MAX_MILLIS - 1);
    task.resume(Reply::Begin);
    let reply = Reply::Message(Some(message(0, "[1]", "")));
    assert!(matches!(
        asked(task.resume(reply)),
        Request::Sql(Statement::AddReady { ts: SqlInteger::Signed(MAX_MILLIS), .. })
    ));

    let mut task = requeue_message("m".to_string(), 0);
    task.resume(Reply::Begin);
    let reply = Reply::Message(Some(message(0, "[18446744073709551615]", "")));
    assert!(matches!(task.resume(reply), Step::ClockOverflow));

    let mut task = NextReadyTask::new();
    task.resume(Reply::Begin);
    let reply = Reply::Time(Some(MAX_MILLIS as u64 + 1));
    assert!(matches!(task.resume(reply), Step::ClockOverflow));

    let mut running = RunningMessages::new();
    assert!(matches!(
        KeepaliveTask::new(MAX_MILLIS, &running).resume(Reply::Begin),
        Step::Done(Ok(()))
    ));
    running.insert(QueueMessageId::new("m".to_string()));
    assert!(matches!(
        KeepaliveTask::new(MAX_MILLIS, &running).resume(Reply::Begin),
        Step::ClockOverflow
    ));
    assert_eq!(
        asked(KeepaliveTask::new(1, &running).resume(Reply::Begin)),
        Request::Sql(Statement::UpdateDeadline { deadline: 5001, id: "m".to_string() })
    );
}

#[test]
fn a_deadline_that_would_overflow_is_not_accepted() {
    let mut task = DequeueTask::new(0, &RunningMessages::new());
    task.resume(Reply::Begin);
    assert!(!task.accepts(&Reply::Message(Some(message(u64::MAX - 4999, "", "")))));
    let reply = Reply::Message(Some(message(u64::MAX - 5000, "", "")));
    assert!(task.accepts(&reply));
    task.resume(reply);
    assert!(matches!(
        asked(task.resume(Reply::Changed(1))),
        Request::Sql(Statement::AddRunning { deadline: u64::MAX, .. })
    ));
}

#[test]
fn a_cleanup_tells_of_each_message_that_is_queued_again() {
    let mut task = CleanupTask::new(9);
    assert_eq!(
        asked(task.resume(Reply::Begin)),
        Request::Sql(Statement::RunningPastDeadline { now_ms: 9 })
    );
    let ids = vec!["gone".to_string(), "m".to_string()];
    assert_eq!(
        asked(task.resume(Reply::Ids(ids))),
        Request::Sql(Statement::RunningById { id: "gone".to_string() })
    );
    assert_eq!(
        asked(task.resume(Reply::Message(None))),
        Request::Sql(Statement::RunningById { id: "m".to_string() })
    );
    task.resume(Reply::Message(Some(message(0, "[1]", ""))));
    task.resume(Reply::Changed(1));
    assert_eq!(asked(task.resume(Reply::Changed(1))), Request::ScheduleDequeue);
    assert!(matches!(task.resume(Reply::Performed), Step::Done(Ok(false))));

    let mut task = CleanupTask::new(9);
    task.resume(Reply::Begin);
    assert!(matches!(task.resume(Reply::Ids(vec![])), Step::Done(Ok(true))));
}

#[test]
fn the_missing_migrations_are_run_in_order() {
    for (current, expected) in [
        (None, vec![0, 1, 2]),
        (Some(0), vec![0, 1, 2]),
        (Some(1), vec![1, 2]),
        (Some(2), vec![2]),
        (Some(3), vec![]),
        (Some(8), vec![]),
    ] {
        let mut task = MigrationTask::new();
        assert_eq!(asked(task.resume(Reply::Begin)), Request::Sql(Statement::CreateMigrationTable));
        assert_eq!(
            asked(task.resume(Reply::Changed(0))),
            Request::Sql(Statement::GetMigrationVersion)
        );
        let mut step = task.resume(Reply::SchemaVersion(current));
        for index in expected {
            assert_eq!(asked(step), Request::Sql(Statement::RunMigration { index }));
            assert_eq!(
                asked(task.resume(Reply::Performed)),
                Request::Sql(Statement::SaveMigrationVersion { version: index + 1 })
            );
            step = task.resume(Reply::Changed(1));
        }
        assert!(matches!(step, Step::Done(Ok(()))));
    }
}

#[test]
fn statements_have_their_texts() {
    assert_eq!(MIGRATION_COUNT, 3);
    for index in 0..MIGRATION_COUNT {
        assert_eq!(statement_text(&Statement::RunMigration { index }), migration(index));
    }
    let scan = |reverse| Statement::ScanRange { start: vec![], end: vec![], limit: 1, reverse };
    assert_eq!(
        statement_text(&scan(false)),
        "select k, v, v_encoding, version from kv where k >= ? and k < ? order by k asc limit ?"
    );
    assert_eq!(
        statement_text(&scan(true)),
        "select k, v, v_encoding, version from kv where k >= ? and k < ? order by k desc limit ?"
    );
    assert_eq!(
        statement_text(&Statement::SaveMigrationVersion { version: 1 }),
        "replace into migration_state (k, version) values(?, ?)"
    );
}

#[test]
fn a_writable_database_is_migrated_first() {
    let (backend, task) = SqliteBackend::new(false, false);
    assert!(!backend.readonly);
    assert_eq!(backend.messages_running.len(), 0);
    assert!(task.is_some());
    let writes = vec![empty_write()];
    assert!(matches!(backend.atomic_write_batched(&writes), BatchStart::Begun(_)));
}
