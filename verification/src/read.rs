//! A snapshot read: ranges of entries, and the version that they were read at.

use crate::bytes::copy_bytes;
use crate::error::{Failure, Fault, SqliteBackendError, SqliteFailure};
use crate::request::{ask, failed, Answer, KvRow, Move, Reply, Request, Row, Sql, Statement, Step};
use crate::value::{
    decode_value, decoded, well_encoded, KvValue, Value, VALUE_ENCODING_BYTES, VALUE_ENCODING_LE64,
    VALUE_ENCODING_V8,
};
use crate::versionstamp::{version_to_versionstamp, versionstamp_of, Versionstamp};
use crate::views::{opt_view, result_view, seq_view};
use vstd::prelude::*;

verus! {

/// The keys from `start` up to but not including `end`, in order or in reverse,
/// and at most `limit` of them.
#[derive(Debug, PartialEq, Eq)]
pub struct ReadRange {
    pub start: Vec<u8>,
    pub end: Vec<u8>,
    pub limit: u32,
    pub reverse: bool,
}

/// What a `ReadRange` stands for.
pub struct RangeModel {
    pub start: Seq<u8>,
    pub end: Seq<u8>,
    pub limit: u32,
    pub reverse: bool,
}

impl View for ReadRange {
    type V = RangeModel;

    open spec fn view(&self) -> RangeModel {
        RangeModel {
            start: self.start@,
            end: self.end@,
            limit: self.limit,
            reverse: self.reverse,
        }
    }
}

/// A key, its value, and the version that set it.
#[derive(Debug, PartialEq, Eq)]
pub struct KvEntry {
    pub key: Vec<u8>,
    pub value: KvValue,
    pub versionstamp: Versionstamp,
}

/// What a `KvEntry` stands for.
pub struct Entry {
    pub key: Seq<u8>,
    pub value: Value,
    pub versionstamp: Seq<u8>,
}

impl View for KvEntry {
    type V = Entry;

    open spec fn view(&self) -> Entry {
        Entry { key: self.key@, value: self.value@, versionstamp: self.versionstamp@ }
    }
}

/// The entries of a range.
#[derive(Debug, PartialEq, Eq)]
pub struct ReadRangeOutput {
    pub entries: Vec<KvEntry>,
}

impl View for ReadRangeOutput {
    type V = Seq<Entry>;

    open spec fn view(&self) -> Seq<Entry> {
        seq_view(self.entries@)
    }
}

/// The entries of each range, and the version of the data.
#[derive(Debug, PartialEq, Eq)]
pub struct SnapshotOutput {
    pub ranges: Vec<ReadRangeOutput>,
    pub versionstamp: Versionstamp,
}

/// What a `SnapshotOutput` stands for.
pub struct Snapshot {
    pub ranges: Seq<Seq<Entry>>,
    pub versionstamp: Seq<u8>,
}

impl View for SnapshotOutput {
    type V = Snapshot;

    open spec fn view(&self) -> Snapshot {
        Snapshot { ranges: seq_view(self.ranges@), versionstamp: self.versionstamp@ }
    }
}

/// The entries that rows hold, or the first encoding that is not known.
pub open spec fn entries_of(rows: Seq<Row>) -> Result<Seq<Entry>, Fault>
    decreases rows.len(),
{
    if rows.len() == 0 {
        Ok(seq![])
    } else {
        match entries_of(rows.drop_last()) {
            Ok(entries) => match decoded(rows.last().value, rows.last().encoding) {
                Some(value) => Ok(
                    entries.push(
                        Entry {
                            key: rows.last().key,
                            value,
                            versionstamp: versionstamp_of(rows.last().version as int),
                        },
                    ),
                ),
                None => Err(Fault::UnknownValueEncoding(rows.last().encoding)),
            },
            Err(fault) => Err(fault),
        }
    }
}

/// Whether a stored number has eight bytes in each row up to the first one with
/// an encoding that is not known.
pub open spec fn rows_well_encoded(rows: Seq<Row>) -> bool {
    forall|i: int|
        0 <= i < rows.len() && entries_of(rows.take(i)) is Ok ==> well_encoded(
            (#[trigger] rows[i]).value,
            rows[i].encoding,
        )
}

/// The entries of a scan: an encoding that is not known comes before a row that
/// could not be read.
pub open spec fn scanned(rows: Seq<Row>, failure: Option<Failure>) -> Result<Seq<Entry>, Fault> {
    match (entries_of(rows), failure) {
        (Err(fault), _) => Err(fault),
        (Ok(_), Some(failure)) => Err(Fault::Sqlite(failure)),
        (Ok(entries), None) => Ok(entries),
    }
}

proof fn lemma_entries_of_prefix(rows: Seq<Row>, n: int)
    requires
        0 <= n <= rows.len(),
    ensures
        entries_of(rows.take(n)) matches Err(fault) ==> entries_of(rows) == Err::<
            Seq<Entry>,
            Fault,
        >(fault),
    decreases rows.len() - n,
{
    if n == rows.len() {
        assert(rows.take(n) =~= rows);
    } else {
        assert(rows.take(n + 1).drop_last() =~= rows.take(n));
        lemma_entries_of_prefix(rows, n + 1);
    }
}

/// The entries of a scan.
pub fn scan_entries(rows: Vec<KvRow>, failure: Option<SqliteFailure>) -> (result: Result<
    ReadRangeOutput,
    SqliteBackendError,
>)
    requires
        rows_well_encoded(seq_view(rows@)),
    ensures
        result_view(result) == scanned(seq_view(rows@), opt_view(failure)),
{
    let ghost model = seq_view(rows@);
    let mut entries: Vec<KvEntry> = Vec::new();
    let mut left = rows;
    let mut i: usize = 0;
    let total = left.len();
    assert(model.take(0) =~= seq![]);
    assert(seq_view(entries@) =~= seq![]);
    while i < total
        invariant
            i <= total,
            total == model.len(),
            left@.len() == total,
            model == seq_view(rows@),
            forall|j: int| i <= j < total ==> (#[trigger] left@[j])@ == model[j],
            rows_well_encoded(model),
            entries_of(model.take(i as int)) == Ok::<Seq<Entry>, Fault>(seq_view(entries@)),
        decreases total - i,
    {
        let mut row = KvRow { key: Vec::new(), value: Vec::new(), encoding: 0, version: 0 };
        proof {
            assert(left@[i as int]@ == model[i as int]);
            assert(well_encoded(model[i as int].value, model[i as int].encoding));
            assert(model.take(i + 1).drop_last() =~= model.take(i as int));
            lemma_entries_of_prefix(model, i + 1);
        }
        core::mem::swap(&mut row, &mut left[i]);
        assert(row@ == model[i as int]);
        match decode_value(row.value, row.encoding) {
            Some(value) => {
                let ghost done = entries@;
                entries.push(
                    KvEntry {
                        key: row.key,
                        value,
                        versionstamp: version_to_versionstamp(row.version),
                    },
                );
                assert(seq_view(entries@) =~= seq_view(done).push(entries@.last()@));
            },
            None => {
                assert(entries_of(model.take(i + 1)) is Err);
                return Err(SqliteBackendError::UnknownValueEncoding(row.encoding));
            },
        }
        i = i + 1;
    }
    assert(model.take(total as int) =~= model);
    match failure {
        Some(e) => Err(SqliteBackendError::SqliteError(e)),
        None => Ok(ReadRangeOutput { entries }),
    }
}

/// What a snapshot read waits for.
#[derive(Debug, PartialEq, Eq, Clone, Copy)]
pub enum SnapshotPhase {
    /// To begin.
    Fresh,
    /// For the rows of a range.
    Scanning { index: usize },
    /// For the data version.
    Versioning,
    /// For nothing any more.
    Finished,
}

/// Where a snapshot read stands: what it waits for, and the ranges that it has.
pub struct SnapshotState {
    pub phase: SnapshotPhase,
    pub ranges: Seq<Seq<Entry>>,
}

/// The read goes on with the range at `index`; after the last one comes the data
/// version.
pub open spec fn scan_from(
    requests: Seq<RangeModel>,
    ranges: Seq<Seq<Entry>>,
    index: usize,
) -> (SnapshotState, Move<Snapshot>) {
    if index < requests.len() {
        let request = requests[index as int];
        (
            SnapshotState { phase: SnapshotPhase::Scanning { index }, ranges },
            ask(
                Sql::ScanRange {
                    start: request.start,
                    end: request.end,
                    limit: request.limit,
                    reverse: request.reverse,
                },
            ),
        )
    } else {
        (SnapshotState { phase: SnapshotPhase::Versioning, ranges }, ask(Sql::GetDataVersion))
    }
}

/// The read goes on with what it is told.
pub open spec fn snapshot_step(
    requests: Seq<RangeModel>,
    state: SnapshotState,
    answer: Answer,
) -> (SnapshotState, Move<Snapshot>) {
    let ended = SnapshotState { phase: SnapshotPhase::Finished, ..state };
    match (state.phase, answer) {
        (_, Answer::Failed(failure)) => (ended, failed(failure)),
        (SnapshotPhase::Fresh, _) => scan_from(requests, state.ranges, 0),
        (SnapshotPhase::Scanning { index }, Answer::Rows(rows, failure)) => {
            match scanned(rows, failure) {
                Ok(entries) => scan_from(
                    requests,
                    state.ranges.push(entries),
                    (index + 1) as usize,
                ),
                Err(fault) => (ended, Move::Done(Err(fault))),
            }
        },
        (SnapshotPhase::Versioning, Answer::Version(version)) => (
            SnapshotState { phase: SnapshotPhase::Finished, ranges: seq![] },
            Move::Done(
                Ok(
                    Snapshot {
                        ranges: state.ranges,
                        versionstamp: versionstamp_of(version as int),
                    },
                ),
            ),
        ),
        _ => (state, Move::ClockOverflow),
    }
}

/// Whether a read can be told this.
pub open spec fn snapshot_expects(phase: SnapshotPhase, answer: Answer) -> bool {
    match (phase, answer) {
        (SnapshotPhase::Fresh, Answer::Begin) => true,
        (SnapshotPhase::Scanning { .. }, Answer::Rows(rows, _)) => rows_well_encoded(rows),
        (SnapshotPhase::Scanning { .. }, Answer::Failed(_)) => true,
        (SnapshotPhase::Versioning, Answer::Version(_)) => true,
        (SnapshotPhase::Versioning, Answer::Failed(_)) => true,
        _ => false,
    }
}

/// A snapshot read under way.
pub struct SnapshotTask<'a> {
    requests: &'a Vec<ReadRange>,
    ranges: Vec<ReadRangeOutput>,
    phase: SnapshotPhase,
}

fn known_encoding(encoding: i64) -> (known: bool)
    ensures
        known == forall|bytes: Seq<u8>| #[trigger] decoded(bytes, encoding) is Some,
{
    let known = encoding == VALUE_ENCODING_V8 || encoding == VALUE_ENCODING_LE64 || encoding
        == VALUE_ENCODING_BYTES;
    assert(decoded(seq![], encoding) is Some ==> known);
    known
}

fn are_well_encoded(rows: &Vec<KvRow>) -> (well: bool)
    ensures
        well == rows_well_encoded(seq_view(rows@)),
{
    let ghost model = seq_view(rows@);
    let mut i: usize = 0;
    assert(model.take(0) =~= seq![]);
    while i < rows.len()
        invariant
            i <= rows@.len(),
            model == seq_view(rows@),
            entries_of(model.take(i as int)) is Ok,
            forall|j: int|
                0 <= j < i ==> well_encoded((#[trigger] model[j]).value, model[j].encoding),
        decreases rows@.len() - i,
    {
        let row = &rows[i];
        assert(row@ == model[i as int]);
        assert(model.take(i + 1).drop_last() =~= model.take(i as int));
        if row.encoding == VALUE_ENCODING_LE64 && row.value.len() != 8 {
            return false;
        }
        if !known_encoding(row.encoding) {
            assert forall|j: int| 0 <= j < model.len() && entries_of(model.take(j)) is Ok implies
                well_encoded((#[trigger] model[j]).value, model[j].encoding) by {
                if j > i {
                    lemma_entries_of_prefix(model.take(j), i + 1);
                    assert(model.take(j).take(i + 1) =~= model.take(i + 1));
                }
            }
            return true;
        }
        i = i + 1;
    }
    true
}

impl<'a> SnapshotTask<'a> {
    /// The ranges to read.
    pub closed spec fn requests(&self) -> Seq<RangeModel> {
        seq_view(self.requests@)
    }

    /// Where the read stands.
    pub closed spec fn state(&self) -> SnapshotState {
        SnapshotState { phase: self.phase, ranges: seq_view(self.ranges@) }
    }

    /// Whether a read of these ranges can stand there.
    pub open spec fn fits(&self) -> bool {
        self.state().phase matches SnapshotPhase::Scanning { index } ==> index
            < self.requests().len()
    }

    /// Starts a snapshot read.
    pub fn new(requests: &'a Vec<ReadRange>) -> (task: SnapshotTask<'a>)
        ensures
            task.requests() == seq_view(requests@),
            task.state() == (SnapshotState { phase: SnapshotPhase::Fresh, ranges: seq![] }),
            task.fits(),
    {
        let ranges: Vec<ReadRangeOutput> = Vec::new();
        assert(seq_view(ranges@) =~= seq![]);
        SnapshotTask { requests, ranges, phase: SnapshotPhase::Fresh }
    }

    /// Whether the task can be told this.
    pub fn accepts(&self, reply: &Reply) -> (accepted: bool)
        ensures
            accepted == snapshot_expects(self.state().phase, reply@),
    {
        match (&self.phase, reply) {
            (SnapshotPhase::Fresh, Reply::Begin) => true,
            (SnapshotPhase::Scanning { .. }, Reply::Rows(rows, _)) => are_well_encoded(rows),
            (SnapshotPhase::Scanning { .. }, Reply::Failed(_)) => true,
            (SnapshotPhase::Versioning, Reply::Version(_)) => true,
            (SnapshotPhase::Versioning, Reply::Failed(_)) => true,
            _ => false,
        }
    }

    fn scan(&mut self, index: usize) -> (step: Step<SnapshotOutput>)
        ensures
            final(self).requests() == old(self).requests(),
            final(self).fits(),
            (final(self).state(), step@) == scan_from(
                old(self).requests(),
                old(self).state().ranges,
                index,
            ),
    {
        if index < self.requests.len() {
            let request = &self.requests[index];
            let statement = Statement::ScanRange {
                start: copy_bytes(&request.start),
                end: copy_bytes(&request.end),
                limit: request.limit,
                reverse: request.reverse,
            };
            self.phase = SnapshotPhase::Scanning { index };
            Step::Ask(Request::Sql(statement))
        } else {
            self.phase = SnapshotPhase::Versioning;
            Step::Ask(Request::Sql(Statement::GetDataVersion))
        }
    }

    /// Goes on with what it is told.
    pub fn resume(&mut self, reply: Reply) -> (step: Step<SnapshotOutput>)
        requires
            old(self).fits(),
            snapshot_expects(old(self).state().phase, reply@),
        ensures
            final(self).requests() == old(self).requests(),
            final(self).fits(),
            (final(self).state(), step@) == snapshot_step(
                old(self).requests(),
                old(self).state(),
                reply@,
            ),
    {
        match (self.phase, reply) {
            (_, Reply::Failed(e)) => {
                self.phase = SnapshotPhase::Finished;
                Step::Done(Err(SqliteBackendError::SqliteError(e)))
            },
            (SnapshotPhase::Fresh, _) => self.scan(0),
            (SnapshotPhase::Scanning { index }, Reply::Rows(rows, failure)) => {
                assert(index < self.requests.len());
                match scan_entries(rows, failure) {
                    Ok(range) => {
                        let ghost before = self.ranges@;
                        self.ranges.push(range);
                        assert(seq_view(self.ranges@) =~= seq_view(before).push(range@));
                        self.scan(index + 1)
                    },
                    Err(e) => {
                        self.phase = SnapshotPhase::Finished;
                        Step::Done(Err(e))
                    },
                }
            },
            (SnapshotPhase::Versioning, Reply::Version(version)) => {
                let mut ranges: Vec<ReadRangeOutput> = Vec::new();
                core::mem::swap(&mut ranges, &mut self.ranges);
                self.phase = SnapshotPhase::Finished;
                assert(seq_view(self.ranges@) =~= seq![]);
                Step::Done(
                    Ok(SnapshotOutput { ranges, versionstamp: version_to_versionstamp(version) }),
                )
            },
            _ => Step::ClockOverflow,
        }
    }
}

} // verus!
