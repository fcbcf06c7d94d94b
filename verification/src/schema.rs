//! The tables, and how a database gets them.

use crate::error::SqliteBackendError;
use crate::request::{ask, failed, Answer, Move, Reply, Request, Sql, Statement, Step};
use vstd::prelude::*;

verus! {

/// How many migrations there are.
pub const MIGRATION_COUNT: usize = 3;

/// The text of a migration.
pub open spec fn migration_text(index: int) -> Seq<char> {
    if index == 0 {
        "
create table data_version (
  k integer primary key,
  version integer not null
);
insert into data_version (k, version) values (0, 0);
create table kv (
  k blob primary key,
  v blob not null,
  v_encoding integer not null,
  version integer not null
) without rowid;
"@
    } else if index == 1 {
        "
create table queue (
  ts integer not null,
  id text not null,
  data blob not null,
  backoff_schedule text not null,
  keys_if_undelivered blob not null,

  primary key (ts, id)
);
create table queue_running(
  deadline integer not null,
  id text not null,
  data blob not null,
  backoff_schedule text not null,
  keys_if_undelivered blob not null,

  primary key (deadline, id)
);
"@
    } else {
        "
alter table kv add column seq integer not null default 0;
alter table data_version add column seq integer not null default 0;
alter table kv add column expiration_ms integer not null default -1;
create index kv_expiration_ms_idx on kv (expiration_ms);
"@
    }
}

/// The text of a migration.
pub fn migration(index: usize) -> (text: &'static str)
    requires
        index < MIGRATION_COUNT,
    ensures
        text@ == migration_text(index as int),
{
    if index == 0 {
        "
create table data_version (
  k integer primary key,
  version integer not null
);
insert into data_version (k, version) values (0, 0);
create table kv (
  k blob primary key,
  v blob not null,
  v_encoding integer not null,
  version integer not null
) without rowid;
"
    } else if index == 1 {
        "
create table queue (
  ts integer not null,
  id text not null,
  data blob not null,
  backoff_schedule text not null,
  keys_if_undelivered blob not null,

  primary key (ts, id)
);
create table queue_running(
  deadline integer not null,
  id text not null,
  data blob not null,
  backoff_schedule text not null,
  keys_if_undelivered blob not null,

  primary key (deadline, id)
);
"
    } else {
        "
alter table kv add column seq integer not null default 0;
alter table data_version add column seq integer not null default 0;
alter table kv add column expiration_ms integer not null default -1;
create index kv_expiration_ms_idx on kv (expiration_ms);
"
    }
}

/// What the task waits for that brings the schema up to date.
#[derive(Debug, PartialEq, Eq, Clone, Copy)]
#[allow(inconsistent_fields)]
pub enum MigrationState {
    /// To begin.
    Fresh,
    /// For the table of the schema version.
    Creating,
    /// For the schema version.
    Reading,
    /// For a migration.
    Migrating { index: usize },
    /// For the new schema version to be saved.
    Saving { index: usize },
    /// For nothing any more.
    Finished,
}

/// The migration at `index` is run; after the last one the task is done.
pub open spec fn migrate_from(index: usize) -> (MigrationState, Move<()>) {
    if index < MIGRATION_COUNT {
        (MigrationState::Migrating { index }, ask(Sql::RunMigration { index }))
    } else {
        (MigrationState::Finished, Move::Done(Ok(())))
    }
}

/// The task goes on with what it is told: of the migrations those are run that
/// the schema version does not count yet, and the version is saved after each.
pub open spec fn migration_step(state: MigrationState, answer: Answer) -> (
    MigrationState,
    Move<()>,
) {
    match (state, answer) {
        (_, Answer::Failed(failure)) => (MigrationState::Finished, failed(failure)),
        (MigrationState::Fresh, _) => (MigrationState::Creating, ask(Sql::CreateMigrationTable)),
        (MigrationState::Creating, _) => (MigrationState::Reading, ask(Sql::GetMigrationVersion)),
        (MigrationState::Reading, Answer::SchemaVersion(Some(current))) => migrate_from(current),
        (MigrationState::Reading, Answer::SchemaVersion(None)) => migrate_from(0),
        (MigrationState::Migrating { index }, _) => (
            MigrationState::Saving { index },
            ask(Sql::SaveMigrationVersion { version: (index + 1) as usize }),
        ),
        (MigrationState::Saving { index }, _) => migrate_from((index + 1) as usize),
        _ => (state, Move::ClockOverflow),
    }
}

/// Whether the task can be told this.
pub open spec fn migration_expects(state: MigrationState, answer: Answer) -> bool {
    match (state, answer) {
        (MigrationState::Fresh, Answer::Begin) => true,
        (MigrationState::Creating, Answer::Changed(_)) => true,
        (MigrationState::Creating, Answer::Failed(_)) => true,
        (MigrationState::Reading, Answer::SchemaVersion(_)) => true,
        (MigrationState::Reading, Answer::Failed(_)) => true,
        (MigrationState::Migrating { .. }, Answer::Performed) => true,
        (MigrationState::Migrating { .. }, Answer::Failed(_)) => true,
        (MigrationState::Saving { .. }, Answer::Changed(_)) => true,
        (MigrationState::Saving { .. }, Answer::Failed(_)) => true,
        _ => false,
    }
}

/// The task that brings the schema up to date.
pub struct MigrationTask {
    state: MigrationState,
}

impl MigrationTask {
    /// Where the task stands.
    pub closed spec fn state(&self) -> MigrationState {
        self.state
    }

    /// Whether it can stand there.
    pub open spec fn fits(&self) -> bool {
        match self.state() {
            MigrationState::Migrating { index } => index < MIGRATION_COUNT,
            MigrationState::Saving { index } => index < MIGRATION_COUNT,
            _ => true,
        }
    }

    /// Starts to bring the schema up to date.
    pub fn new() -> (task: MigrationTask)
        ensures
            task.state() == MigrationState::Fresh,
            task.fits(),
    {
        MigrationTask { state: MigrationState::Fresh }
    }

    /// Whether the task can be told this.
    pub fn accepts(&self, reply: &Reply) -> (accepted: bool)
        ensures
            accepted == migration_expects(self.state(), reply@),
    {
        match (self.state, reply) {
            (MigrationState::Fresh, Reply::Begin) => true,
            (MigrationState::Creating, Reply::Changed(_)) => true,
            (MigrationState::Creating, Reply::Failed(_)) => true,
            (MigrationState::Reading, Reply::SchemaVersion(_)) => true,
            (MigrationState::Reading, Reply::Failed(_)) => true,
            (MigrationState::Migrating { .. }, Reply::Performed) => true,
            (MigrationState::Migrating { .. }, Reply::Failed(_)) => true,
            (MigrationState::Saving { .. }, Reply::Changed(_)) => true,
            (MigrationState::Saving { .. }, Reply::Failed(_)) => true,
            _ => false,
        }
    }

    fn migrate(&mut self, index: usize) -> (step: Step<()>)
        ensures
            final(self).fits(),
            (final(self).state(), step@) == migrate_from(index),
    {
        if index < MIGRATION_COUNT {
            self.state = MigrationState::Migrating { index };
            Step::Ask(Request::Sql(Statement::RunMigration { index }))
        } else {
            self.state = MigrationState::Finished;
            Step::Done(Ok(()))
        }
    }

    /// Goes on with what it is told.
    pub fn resume(&mut self, reply: Reply) -> (step: Step<()>)
        requires
            old(self).fits(),
            migration_expects(old(self).state(), reply@),
        ensures
            final(self).fits(),
            (final(self).state(), step@) == migration_step(old(self).state(), reply@),
    {
        match (self.state, reply) {
            (_, Reply::Failed(e)) => {
                self.state = MigrationState::Finished;
                Step::Done(Err(SqliteBackendError::SqliteError(e)))
            },
            (MigrationState::Fresh, _) => {
                self.state = MigrationState::Creating;
                Step::Ask(Request::Sql(Statement::CreateMigrationTable))
            },
            (MigrationState::Creating, _) => {
                self.state = MigrationState::Reading;
                Step::Ask(Request::Sql(Statement::GetMigrationVersion))
            },
            (MigrationState::Reading, Reply::SchemaVersion(Some(current))) => self.migrate(current),
            (MigrationState::Reading, Reply::SchemaVersion(None)) => self.migrate(0),
            (MigrationState::Migrating { index }, _) => {
                self.state = MigrationState::Saving { index };
                Step::Ask(Request::Sql(Statement::SaveMigrationVersion { version: index + 1 }))
            },
            (MigrationState::Saving { index }, _) => self.migrate(index + 1),
            _ => Step::ClockOverflow,
        }
    }
}

} // verus!
