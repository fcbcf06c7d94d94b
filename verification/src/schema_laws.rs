//! What bringing the schema up to date comes to.

use crate::error::Fault;
use crate::protocol::{
    end_of, is_run, lemma_next_exchange, lemma_no_exchange, lemma_start, no_failure, tables_after,
    Codec, Exchange, Protocol,
};
use crate::queue_laws::queue_fits;
use crate::read_laws::values_fit;
use crate::request::{Answer, Move};
use crate::schema::{
    migrate_from, migration_expects, migration_step, MigrationState, MIGRATION_COUNT,
};
use crate::store_laws::versions_fit;
use crate::tables::{migrated_by, Tables};
use vstd::prelude::*;

verus! {

/// The moves of the task that brings the schema up to date.
pub struct MigrationRun {}

impl Protocol for MigrationRun {
    type State = MigrationState;

    type Output = ();

    open spec fn next(self, state: MigrationState, answer: Answer, id: Seq<char>) -> (
        MigrationState,
        Move<()>,
    ) {
        migration_step(state, answer)
    }

    open spec fn expects(self, state: MigrationState, answer: Answer) -> bool {
        migration_expects(state, answer)
    }
}

impl MigrationRun {
    /// The first move.
    pub open spec fn start(self) -> (MigrationState, Move<()>) {
        migration_step(MigrationState::Fresh, Answer::Begin)
    }
}

/// How many migrations the database has counted.
pub open spec fn counted(tables: Tables) -> usize {
    match tables.schema_version {
        Some(version) => version,
        None => 0,
    }
}

/// The tables after the migrations from `index` on, each of which is counted.
pub open spec fn migrated_from(tables: Tables, index: usize) -> Tables
    decreases MIGRATION_COUNT - index,
{
    if index < MIGRATION_COUNT {
        let version = (index + 1) as usize;
        migrated_from(
            Tables { schema_version: Some(version), ..migrated_by(tables, index) },
            version,
        )
    } else {
        tables
    }
}

/// The tables after the migrations that the database has not counted.
pub open spec fn migrated(before: Tables) -> Tables {
    migrated_from(before, counted(before))
}

proof fn lemma_migrate_from(codec: Codec, index: usize, tables: Tables, trace: Seq<Exchange>)
    requires
        is_run(codec, MigrationRun {}, migrate_from(index), tables, trace),
        no_failure(trace),
    ensures
        end_of(MigrationRun {}, migrate_from(index), trace) == Move::Done(Ok::<(), Fault>(())),
        tables_after(tables, trace) == migrated_from(tables, index),
    decreases MIGRATION_COUNT - index,
{
    let task = MigrationRun {};
    let at = migrate_from(index);
    if index < MIGRATION_COUNT {
        lemma_start(codec, task, at, tables, trace);
        lemma_next_exchange(codec, task, at, tables, trace, 0, at, tables);
        let save = migration_step(at.0, trace[0].answer);
        lemma_next_exchange(codec, task, at, tables, trace, 1, save, trace[0].tables);
        lemma_migrate_from(codec, (index + 1) as usize, trace[1].tables, trace.skip(2));
    } else {
        lemma_no_exchange(codec, task, at, tables, trace);
    }
}

/// Bringing the schema up to date runs the migrations that the database has not
/// counted, in their order and each of them once, and leaves it counting all of
/// them.
pub proof fn the_missing_migrations_are_run(codec: Codec, before: Tables, trace: Seq<Exchange>)
    requires
        is_run(codec, MigrationRun {}, (MigrationRun {}).start(), before, trace),
        no_failure(trace),
    ensures
        end_of(MigrationRun {}, (MigrationRun {}).start(), trace) == Move::Done(
            Ok::<(), Fault>(()),
        ),
        tables_after(before, trace) == migrated(before),
        counted(tables_after(before, trace)) >= MIGRATION_COUNT,
{
    let task = MigrationRun {};
    let at = task.start();
    lemma_start(codec, task, at, before, trace);
    lemma_next_exchange(codec, task, at, before, trace, 0, at, before);
    let read = migration_step(MigrationState::Creating, trace[0].answer);
    lemma_next_exchange(codec, task, at, before, trace, 1, read, before);
    lemma_migrate_from(codec, counted(before), before, trace.skip(2));
    migrating_again_changes_nothing(before);
}

proof fn lemma_counted(tables: Tables, index: usize)
    requires
        counted(tables) == index || index == 0,
    ensures
        counted(migrated_from(tables, index)) >= MIGRATION_COUNT,
    decreases MIGRATION_COUNT - index,
{
    if index < MIGRATION_COUNT {
        let version = (index + 1) as usize;
        lemma_counted(
            Tables { schema_version: Some(version), ..migrated_by(tables, index) },
            version,
        );
    }
}

/// A schema that is up to date stays as it is, and so does what its tables hold.
pub proof fn migrating_again_changes_nothing(before: Tables)
    ensures
        counted(migrated(before)) >= MIGRATION_COUNT,
        migrated(migrated(before)) == migrated(before),
        counted(before) >= MIGRATION_COUNT ==> migrated(before) == before,
{
    lemma_counted(before, counted(before));
}

/// A new database gets tables that are empty, at version zero.
pub proof fn a_new_database_is_empty(before: Tables)
    requires
        before.schema_version is None,
        before.migrations == Seq::<usize>::empty(),
    ensures
        migrated(before) == (Tables {
            schema_version: Some(MIGRATION_COUNT),
            migrations: seq![0, 1, 2],
            data_version: 0,
            kv: Map::empty(),
            ready: Set::empty(),
            running: Set::empty(),
        }),
        versions_fit(migrated(before)),
        values_fit(migrated(before).kv),
        queue_fits(migrated(before)),
{
    reveal_with_fuel(migrated_from, 4);
    assert(migrated(before).kv =~= Map::empty());
    assert(migrated(before).migrations =~= seq![0, 1, 2]);
}

} // verus!
