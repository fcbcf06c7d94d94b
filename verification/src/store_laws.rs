//! What writes and reads promise together.

use crate::bytes::{bytes_less, lemma_bytes_less_asymmetric, lemma_bytes_less_irreflexive};
use crate::error::Fault;
use crate::failure_laws::{a_failed_statement_ends_a_task, a_write_reports_failures};
use crate::partial_laws::{a_failed_check_stops_a_write, a_write_keeps_to_its_part, is_new_row};
use crate::protocol::{end_of, is_run, no_failure, tables_after, Codec, Exchange};
use crate::queue::Delivery;
use crate::queue_laws::{
    a_dequeueing_delivers_the_first_due, delivered, is_dequeue_end, is_due, is_first_due, is_known,
    queue_fits, DequeueRun,
};
use crate::read::{scan_from, Entry, RangeModel, Snapshot};
use crate::read_laws::{
    a_snapshot_is_read, entry_at, is_read, known_encodings_are_read, lemma_only, one_key_is_read,
    only, range_fits, row_fits, values_fit, SnapshotRun,
};
use crate::request::Move;
use crate::tables::{in_range, value_at, version_at, QueueRow, StoredRow, Tables};
use crate::value::{decoding_undoes_encoding, Value};
use crate::versionstamp::{
    suffixed_key, versionstamp_of, versionstamps_are_distinct, versionstamps_are_ordered,
};
use crate::write::{
    check_from, expiration, row_versionstamp, CheckModel, EnqueueModel, KindModel, MutationModel,
    WriteModel, WriteOutcome, INCREMENT_END, INCREMENT_MIN,
};
use crate::write_laws::{
    a_write_comes_to_what_is_written, checks_pass, committed, enqueued, enqueued_row, mutated,
    mutated_from, passes, row_with, WriteRun,
};
use vstd::prelude::*;

verus! {

/// The key whose value a mutation changes.
pub open spec fn touched(mutation: MutationModel, version: i64) -> Seq<u8> {
    match mutation.kind {
        KindModel::SetSuffixVersionstampedKey(_) => suffixed_key(mutation.key, version as int),
        _ => mutation.key,
    }
}

/// The row of a key, if it has a value.
pub open spec fn row_at(kv: Map<Seq<u8>, StoredRow>, key: Seq<u8>) -> Option<StoredRow> {
    if kv.contains_key(key) {
        Some(kv[key])
    } else {
        None
    }
}

/// The versionstamp that a write ended in, if its checks passed and nothing
/// failed.
pub open spec fn commit_of(end: Move<WriteOutcome>) -> Option<Seq<u8>> {
    match end {
        Move::Done(Ok(outcome)) => outcome.commit,
        _ => None,
    }
}

/// Whether a write of `write`, whatever it is told, takes the tables from `before`
/// to `after` and ends in `end`.
pub open spec fn writes(
    codec: Codec,
    write: WriteModel,
    before: Tables,
    trace: Seq<Exchange>,
    end: Move<WriteOutcome>,
    after: Tables,
) -> bool {
    &&& is_run(codec, WriteRun { write }, check_from(write, 0), before, trace)
    &&& end == end_of(WriteRun { write }, check_from(write, 0), trace)
    &&& after == tables_after(before, trace)
}

/// Whether a read of `requests`, whatever it is told, finds the tables as they are
/// `before` and ends in `end`.
pub open spec fn reads(
    codec: Codec,
    requests: Seq<RangeModel>,
    before: Tables,
    trace: Seq<Exchange>,
    end: Move<Snapshot>,
) -> bool {
    &&& is_run(codec, SnapshotRun { requests }, scan_from(requests, seq![], 0), before, trace)
    &&& end == end_of(SnapshotRun { requests }, scan_from(requests, seq![], 0), trace)
}

/// Whether a task ended in a failed statement.
pub open spec fn is_failure<V>(end: Move<V>) -> bool {
    end matches Move::Done(Err(Fault::Sqlite(_)))
}

/// Whether every value is of a version that the data has had.
pub open spec fn versions_fit(tables: Tables) -> bool {
    &&& 0 <= tables.data_version
    &&& forall|key: Seq<u8>| #[trigger]
        tables.kv.contains_key(key) ==> 0 <= tables.kv[key].version <= tables.data_version
}

/// A write that ends in a versionstamp was told of no failure.
proof fn lemma_commit_is_whole(
    codec: Codec,
    write: WriteModel,
    before: Tables,
    trace: Seq<Exchange>,
    end: Move<WriteOutcome>,
    after: Tables,
)
    requires
        writes(codec, write, before, trace, end, after),
        commit_of(end) is Some,
    ensures
        no_failure(trace),
{
    if !no_failure(trace) {
        lemma_write_failure(codec, write, before, trace);
    }
}

/// A write of which a check does not pass changes nothing and commits nothing. It
/// ends without a versionstamp, unless a statement fails.
pub proof fn a_failed_check_changes_nothing(
    codec: Codec,
    write: WriteModel,
    before: Tables,
    trace: Seq<Exchange>,
    end: Move<WriteOutcome>,
    after: Tables,
    index: int,
)
    requires
        writes(codec, write, before, trace, end, after),
        0 <= index < write.checks.len(),
        !passes(before.kv, write.checks[index]),
    ensures
        after == before,
        commit_of(end) is None,
        if no_failure(trace) {
            end == Move::Done(
                Ok::<WriteOutcome, Fault>(WriteOutcome { has_enqueues: false, commit: None }),
            )
        } else {
            is_failure(end)
        },
{
    a_failed_check_stops_a_write(codec, write, before, trace, index);
    if no_failure(trace) {
        a_write_comes_to_what_is_written(codec, write, before, trace);
    } else {
        lemma_write_failure(codec, write, before, trace);
    }
}

/// A write that was told of a failure ends in it.
proof fn lemma_write_failure(
    codec: Codec,
    write: WriteModel,
    before: Tables,
    trace: Seq<Exchange>,
)
    requires
        is_run(codec, WriteRun { write }, check_from(write, 0), before, trace),
        !no_failure(trace),
    ensures
        is_failure(end_of(WriteRun { write }, check_from(write, 0), trace)),
{
    let i = choose|i: int| 0 <= i < trace.len() && (#[trigger] trace[i]).answer is Failed;
    a_write_reports_failures(write);
    a_failed_statement_ends_a_task(
        codec,
        WriteRun { write },
        check_from(write, 0),
        before,
        trace,
        i,
        trace[i].answer->Failed_0,
    );
}

/// A write commits only if every check passes.
pub proof fn a_commit_needs_every_check(
    codec: Codec,
    write: WriteModel,
    before: Tables,
    trace: Seq<Exchange>,
    end: Move<WriteOutcome>,
    after: Tables,
)
    requires
        writes(codec, write, before, trace, end, after),
        commit_of(end) is Some,
    ensures
        checks_pass(before.kv, write.checks),
{
    lemma_commit_is_whole(codec, write, before, trace, end, after);
    a_write_comes_to_what_is_written(codec, write, before, trace);
}

/// A commit makes a later version of the data, and hands out its versionstamp,
/// which comes after that of the version before.
pub proof fn a_commit_makes_a_later_version(
    codec: Codec,
    write: WriteModel,
    before: Tables,
    trace: Seq<Exchange>,
    end: Move<WriteOutcome>,
    after: Tables,
)
    requires
        writes(codec, write, before, trace, end, after),
        commit_of(end) is Some,
    ensures
        before.data_version + INCREMENT_MIN <= after.data_version < before.data_version
            + INCREMENT_END,
        commit_of(end) == Some(versionstamp_of(after.data_version as int)),
        before.data_version >= 0 ==> bytes_less(
            versionstamp_of(before.data_version as int),
            versionstamp_of(after.data_version as int),
        ),
{
    lemma_commit_is_whole(codec, write, before, trace, end, after);
    a_write_comes_to_what_is_written(codec, write, before, trace);
    if before.data_version >= 0 {
        versionstamps_are_ordered(before.data_version, after.data_version);
    }
}

/// No write lowers the version of the data, whatever becomes of it.
pub proof fn a_write_never_lowers_the_version(
    codec: Codec,
    write: WriteModel,
    before: Tables,
    trace: Seq<Exchange>,
    end: Move<WriteOutcome>,
    after: Tables,
)
    requires
        writes(codec, write, before, trace, end, after),
    ensures
        before.data_version <= after.data_version < before.data_version + INCREMENT_END,
{
    a_write_keeps_to_its_part(codec, write, before, trace);
}

/// Where a mutation fails, no message is queued and the write ends in its error.
pub proof fn a_failed_mutation_queues_nothing(
    codec: Codec,
    write: WriteModel,
    before: Tables,
    trace: Seq<Exchange>,
    end: Move<WriteOutcome>,
    after: Tables,
)
    requires
        writes(codec, write, before, trace, end, after),
        no_failure(trace),
        end matches Move::Done(Err(_)),
    ensures
        after.ready == before.ready,
        after.running == before.running,
        exists|version: i64|
            (#[trigger] mutated_from(codec, before.kv, write.mutations, version, 0)) == (
                after.kv,
                Some(end->Done_0->Err_0),
            ),
{
    a_write_comes_to_what_is_written(codec, write, before, trace);
    assert(mutated_from(codec, before.kv, write.mutations, after.data_version, 0) == (
        after.kv,
        Some(end->Done_0->Err_0),
    ));
}

proof fn lemma_mutated_elsewhere(
    codec: Codec,
    kv: Map<Seq<u8>, StoredRow>,
    mutations: Seq<MutationModel>,
    version: i64,
    index: int,
    key: Seq<u8>,
)
    requires
        0 <= index <= mutations.len(),
        forall|j: int|
            index <= j < mutations.len() ==> touched(#[trigger] mutations[j], version) != key,
    ensures
        row_at(mutated_from(codec, kv, mutations, version, index).0, key) == row_at(kv, key),
    decreases mutations.len() - index,
{
    if index < mutations.len() {
        assert(touched(mutations[index], version) != key);
        if let Ok(next) = mutated(codec, kv, mutations[index], version) {
            lemma_mutated_elsewhere(codec, next, mutations, version, index + 1, key);
        }
    }
}

/// The values on which a mutation is carried out, where all of them are.
proof fn lemma_mutated_until(
    codec: Codec,
    kv: Map<Seq<u8>, StoredRow>,
    mutations: Seq<MutationModel>,
    version: i64,
    from: int,
    index: int,
    key: Seq<u8>,
) -> (found: Map<Seq<u8>, StoredRow>)
    requires
        0 <= from <= index <= mutations.len(),
        mutated_from(codec, kv, mutations, version, from).1 is None,
    ensures
        mutated_from(codec, found, mutations, version, index) == mutated_from(
            codec,
            kv,
            mutations,
            version,
            from,
        ),
        (forall|j: int|
            from <= j < index ==> touched(#[trigger] mutations[j], version) != key) ==> row_at(
            found,
            key,
        ) == row_at(kv, key),
    decreases index - from,
{
    if from < index {
        let next = mutated(codec, kv, mutations[from], version)->Ok_0;
        let found = lemma_mutated_until(codec, next, mutations, version, from + 1, index, key);
        if forall|j: int|
            from <= j < index ==> touched(#[trigger] mutations[j], version) != key {
            assert(touched(mutations[from], version) != key);
        }
        found
    } else {
        kv
    }
}

/// What a key holds after a commit is what the last mutation that touches it
/// makes of it, where it sets or deletes its value.
pub proof fn the_last_mutation_of_a_key_stays(
    codec: Codec,
    write: WriteModel,
    before: Tables,
    trace: Seq<Exchange>,
    end: Move<WriteOutcome>,
    after: Tables,
    index: int,
)
    requires
        writes(codec, write, before, trace, end, after),
        commit_of(end) is Some,
        0 <= index < write.mutations.len(),
        forall|j: int|
            index < j < write.mutations.len() ==> touched(
                #[trigger] write.mutations[j],
                after.data_version,
            ) != touched(write.mutations[index], after.data_version),
    ensures
        ({
            let mutation = write.mutations[index];
            let row = row_at(after.kv, touched(mutation, after.data_version));
            match mutation.kind {
                KindModel::SetValue(value) => row == Some(
                    row_with(value, after.data_version, expiration(mutation.expire_at)),
                ),
                KindModel::SetSuffixVersionstampedKey(value) => row == Some(
                    row_with(value, after.data_version, expiration(mutation.expire_at)),
                ),
                KindModel::Delete => row is None,
                _ => row is Some,
            }
        }),
{
    lemma_commit_is_whole(codec, write, before, trace, end, after);
    a_write_comes_to_what_is_written(codec, write, before, trace);
    let version = after.data_version;
    let key = touched(write.mutations[index], version);
    let found = lemma_mutated_until(
        codec,
        before.kv,
        write.mutations,
        version,
        0,
        index,
        key,
    );
    let next = mutated(codec, found, write.mutations[index], version)->Ok_0;
    lemma_mutated_elsewhere(codec, next, write.mutations, version, index + 1, key);
}

/// What a key holds after a commit in which one mutation touches it is what that
/// mutation makes of what the key held before.
pub proof fn the_only_mutation_of_a_key_decides(
    codec: Codec,
    write: WriteModel,
    before: Tables,
    trace: Seq<Exchange>,
    end: Move<WriteOutcome>,
    after: Tables,
    index: int,
)
    requires
        writes(codec, write, before, trace, end, after),
        commit_of(end) is Some,
        0 <= index < write.mutations.len(),
        forall|j: int|
            0 <= j < write.mutations.len() && j != index ==> touched(
                #[trigger] write.mutations[j],
                after.data_version,
            ) != touched(write.mutations[index], after.data_version),
    ensures
        ({
            let mutation = write.mutations[index];
            let key = touched(mutation, after.data_version);
            mutated(codec, before.kv, mutation, after.data_version) matches Ok(kv) && row_at(
                after.kv,
                key,
            ) == row_at(kv, key)
        }),
{
    lemma_commit_is_whole(codec, write, before, trace, end, after);
    a_write_comes_to_what_is_written(codec, write, before, trace);
    let version = after.data_version;
    let key = touched(write.mutations[index], version);
    let found = lemma_mutated_until(
        codec,
        before.kv,
        write.mutations,
        version,
        0,
        index,
        key,
    );
    let next = mutated(codec, found, write.mutations[index], version)->Ok_0;
    lemma_mutated_elsewhere(codec, next, write.mutations, version, index + 1, key);
    assert(row_at(found, key) == row_at(before.kv, key));
    if !(write.mutations[index].kind is SetSuffixVersionstampedKey) {
        assert(value_at(found, key) == value_at(before.kv, key));
    }
}

/// A key that no mutation touches keeps what it holds.
pub proof fn an_untouched_key_stays(
    codec: Codec,
    write: WriteModel,
    before: Tables,
    trace: Seq<Exchange>,
    end: Move<WriteOutcome>,
    after: Tables,
    key: Seq<u8>,
)
    requires
        writes(codec, write, before, trace, end, after),
        forall|j: int|
            0 <= j < write.mutations.len() ==> touched(
                #[trigger] write.mutations[j],
                after.data_version,
            ) != key,
    ensures
        row_at(after.kv, key) == row_at(before.kv, key),
{
    a_write_keeps_to_its_part(codec, write, before, trace);
    assert(row_at(after.kv, key) == row_at(before.kv, key));
}

/// Whether the rows of a key before and after say that it changed at a version,
/// if it did.
pub open spec fn changes_at(
    before: Option<StoredRow>,
    after: Option<StoredRow>,
    version: i64,
) -> bool {
    after == before || after is None || after->0.version == version
}

/// A key that a write changes is either without a value, or its value is of the
/// new version of the data.
pub proof fn a_changed_key_gets_the_new_version(
    codec: Codec,
    write: WriteModel,
    before: Tables,
    trace: Seq<Exchange>,
    end: Move<WriteOutcome>,
    after: Tables,
    key: Seq<u8>,
)
    requires
        writes(codec, write, before, trace, end, after),
    ensures
        changes_at(row_at(before.kv, key), row_at(after.kv, key), after.data_version),
{
    a_write_keeps_to_its_part(codec, write, before, trace);
    assert(row_at(after.kv, key) == row_at(before.kv, key) || is_new_row(
        row_at(after.kv, key),
        after.data_version,
    ));
}

/// No write makes a value of a version that the data has not had, whatever becomes
/// of it.
pub proof fn a_write_keeps_versions_in_order(
    codec: Codec,
    write: WriteModel,
    before: Tables,
    trace: Seq<Exchange>,
    end: Move<WriteOutcome>,
    after: Tables,
)
    requires
        writes(codec, write, before, trace, end, after),
        versions_fit(before),
    ensures
        versions_fit(after),
{
    a_write_keeps_to_its_part(codec, write, before, trace);
    assert forall|key: Seq<u8>| #[trigger] after.kv.contains_key(key) implies 0
        <= after.kv[key].version <= after.data_version by {
        if row_at(after.kv, key) == row_at(before.kv, key) {
            assert(before.kv.contains_key(key));
        }
    }
}

/// A check that a key is as it was before a write passes after it only if the
/// write has left the key alone, whatever became of the write.
pub proof fn a_check_notices_a_change(
    codec: Codec,
    write: WriteModel,
    before: Tables,
    trace: Seq<Exchange>,
    end: Move<WriteOutcome>,
    after: Tables,
    key: Seq<u8>,
)
    requires
        writes(codec, write, before, trace, end, after),
        versions_fit(before),
    ensures
        passes(
            after.kv,
            CheckModel { key, versionstamp: row_versionstamp(version_at(before.kv, key)) },
        ) ==> row_at(after.kv, key) == row_at(before.kv, key),
{
    a_write_keeps_to_its_part(codec, write, before, trace);
    if row_at(after.kv, key) != row_at(before.kv, key) && before.kv.contains_key(key)
        && after.kv.contains_key(key) {
        versionstamps_are_distinct(before.kv[key].version, after.kv[key].version);
    }
}

/// Every value that a write stores is in an encoding that is known, whatever
/// becomes of the write.
pub proof fn a_write_stores_readable_values(
    codec: Codec,
    write: WriteModel,
    before: Tables,
    trace: Seq<Exchange>,
    end: Move<WriteOutcome>,
    after: Tables,
)
    requires
        writes(codec, write, before, trace, end, after),
        values_fit(before.kv),
    ensures
        values_fit(after.kv),
{
    a_write_keeps_to_its_part(codec, write, before, trace);
    assert forall|key: Seq<u8>| #[trigger] after.kv.contains_key(key) implies row_fits(
        after.kv[key],
    ) by {
        if row_at(after.kv, key) == row_at(before.kv, key) {
            assert(before.kv.contains_key(key));
        }
    }
}

/// What a write has set last is read back, with the versionstamp of the write,
/// unless a statement of the read fails.
pub proof fn what_was_set_is_read_back(
    codec: Codec,
    write: WriteModel,
    before: Tables,
    trace: Seq<Exchange>,
    end: Move<WriteOutcome>,
    after: Tables,
    index: int,
    value: Value,
    reverse: bool,
    read_trace: Seq<Exchange>,
    read_end: Move<Snapshot>,
)
    requires
        writes(codec, write, before, trace, end, after),
        commit_of(end) is Some,
        0 <= index < write.mutations.len(),
        write.mutations[index].kind == KindModel::SetValue(value)
            || write.mutations[index].kind == KindModel::SetSuffixVersionstampedKey(value),
        forall|j: int|
            index < j < write.mutations.len() ==> touched(
                #[trigger] write.mutations[j],
                after.data_version,
            ) != touched(write.mutations[index], after.data_version),
        reads(
            codec,
            seq![only(touched(write.mutations[index], after.data_version), reverse)],
            after,
            read_trace,
            read_end,
        ),
    ensures
        if no_failure(read_trace) {
            read_end == Move::Done(
                Ok::<Snapshot, Fault>(
                    Snapshot {
                        ranges: seq![
                            seq![
                                Entry {
                                    key: touched(write.mutations[index], after.data_version),
                                    value,
                                    versionstamp: commit_of(end)->0,
                                },
                            ],
                        ],
                        versionstamp: commit_of(end)->0,
                    },
                ),
            )
        } else {
            is_failure(read_end)
        },
{
    let key = touched(write.mutations[index], after.data_version);
    let requests = seq![only(key, reverse)];
    a_commit_makes_a_later_version(codec, write, before, trace, end, after);
    the_last_mutation_of_a_key_stays(codec, write, before, trace, end, after, index);
    decoding_undoes_encoding(value);
    a_snapshot_is_read(codec, requests, after, read_trace);
    if no_failure(read_trace) {
        assert forall|i: int| 0 <= i < requests.len() implies range_fits(
            after.kv,
            #[trigger] requests[i],
        ) by {
            assert forall|other: Seq<u8>| #[trigger] after.kv.contains_key(other) && in_range(
                key,
                key.push(0),
                other,
            ) implies row_fits(after.kv[other]) by {
                lemma_only(key, other);
            }
        }
        known_encodings_are_read(codec, requests, after, read_trace);
        let snapshot = read_end->Done_0->Ok_0;
        assert(is_read(after.kv, requests[0], snapshot.ranges[0]));
        one_key_is_read(after.kv, key, reverse, snapshot.ranges[0]);
        assert(snapshot.ranges =~= seq![seq![entry_at(after.kv, key)]]);
    }
}

/// What a write has deleted last is not found any more, unless a statement of the
/// read fails.
pub proof fn what_was_deleted_is_not_read(
    codec: Codec,
    write: WriteModel,
    before: Tables,
    trace: Seq<Exchange>,
    end: Move<WriteOutcome>,
    after: Tables,
    index: int,
    reverse: bool,
    read_trace: Seq<Exchange>,
    read_end: Move<Snapshot>,
)
    requires
        writes(codec, write, before, trace, end, after),
        commit_of(end) is Some,
        0 <= index < write.mutations.len(),
        write.mutations[index].kind == KindModel::Delete,
        forall|j: int|
            index < j < write.mutations.len() ==> touched(
                #[trigger] write.mutations[j],
                after.data_version,
            ) != write.mutations[index].key,
        reads(codec, seq![only(write.mutations[index].key, reverse)], after, read_trace, read_end),
    ensures
        if no_failure(read_trace) {
            read_end == Move::Done(
                Ok::<Snapshot, Fault>(
                    Snapshot { ranges: seq![seq![]], versionstamp: commit_of(end)->0 },
                ),
            )
        } else {
            is_failure(read_end)
        },
{
    let key = write.mutations[index].key;
    let requests = seq![only(key, reverse)];
    a_commit_makes_a_later_version(codec, write, before, trace, end, after);
    the_last_mutation_of_a_key_stays(codec, write, before, trace, end, after, index);
    a_snapshot_is_read(codec, requests, after, read_trace);
    if no_failure(read_trace) {
        assert forall|i: int| 0 <= i < requests.len() implies range_fits(
            after.kv,
            #[trigger] requests[i],
        ) by {
            assert forall|other: Seq<u8>| #[trigger] after.kv.contains_key(other) && in_range(
                key,
                key.push(0),
                other,
            ) implies row_fits(after.kv[other]) by {
                lemma_only(key, other);
            }
        }
        known_encodings_are_read(codec, requests, after, read_trace);
        let snapshot = read_end->Done_0->Ok_0;
        assert(is_read(after.kv, requests[0], snapshot.ranges[0]));
        one_key_is_read(after.kv, key, reverse, snapshot.ranges[0]);
        assert(snapshot.ranges =~= seq![seq![]]);
    }
}

/// No entry that is read is of a later version than the snapshot that it is in.
pub proof fn no_entry_is_later_than_its_snapshot(
    codec: Codec,
    requests: Seq<RangeModel>,
    before: Tables,
    trace: Seq<Exchange>,
    snapshot: Snapshot,
    range: int,
    index: int,
)
    requires
        requests.len() <= usize::MAX,
        versions_fit(before),
        reads(codec, requests, before, trace, Move::Done(Ok(snapshot))),
        0 <= range < requests.len(),
        0 <= index < snapshot.ranges[range].len(),
    ensures
        !bytes_less(
            snapshot.versionstamp,
            snapshot.ranges[range][index].versionstamp,
        ),
{
    a_snapshot_is_read(codec, requests, before, trace);
    assert(is_read(before.kv, requests[range], snapshot.ranges[range]));
    let entry = snapshot.ranges[range][index];
    let version = before.kv[entry.key].version;
    assert(before.kv.contains_key(entry.key));
    let stamp = versionstamp_of(version as int);
    let latest = versionstamp_of(before.data_version as int);
    if version < before.data_version {
        versionstamps_are_ordered(version, before.data_version);
        lemma_bytes_less_asymmetric(stamp, latest);
    } else {
        lemma_bytes_less_irreflexive(latest);
    }
}

/// A write that commits queues each of its messages, keeps those that are queued,
/// and touches none that is running.
pub proof fn a_commit_queues_its_messages(
    codec: Codec,
    write: WriteModel,
    before: Tables,
    trace: Seq<Exchange>,
    end: Move<WriteOutcome>,
    after: Tables,
)
    requires
        writes(codec, write, before, trace, end, after),
        commit_of(end) is Some,
    ensures
        after.running == before.running,
        exists|ids: Seq<Seq<char>>|
            ids.len() == write.enqueues.len() && after.ready == #[trigger] enqueued(
                before.ready,
                write.enqueues,
                ids,
            ),
        end->Done_0->Ok_0.has_enqueues == (write.enqueues.len() > 0),
{
    lemma_commit_is_whole(codec, write, before, trace, end, after);
    a_write_comes_to_what_is_written(codec, write, before, trace);
    let (increment, ids) = choose|increment: i64, ids: Seq<Seq<char>>|
        ids.len() == write.enqueues.len() && (after, end) == #[trigger] committed(
            codec,
            write,
            before,
            increment,
            ids,
        );
    assert(after.ready == enqueued(before.ready, write.enqueues, ids));
}

/// A write makes it known that it has queued messages exactly where it commits and
/// has some.
pub proof fn a_write_tells_of_its_messages(
    codec: Codec,
    write: WriteModel,
    before: Tables,
    trace: Seq<Exchange>,
    end: Move<WriteOutcome>,
    after: Tables,
)
    requires
        writes(codec, write, before, trace, end, after),
        end matches Move::Done(Ok(_)),
    ensures
        end->Done_0->Ok_0.has_enqueues == (commit_of(end) is Some && write.enqueues.len() > 0),
{
    if !no_failure(trace) {
        lemma_write_failure(codec, write, before, trace);
    }
    a_write_comes_to_what_is_written(codec, write, before, trace);
}

/// A write whose messages get names that are not taken keeps each message in one
/// place.
pub proof fn a_commit_keeps_messages_apart(
    before: Tables,
    enqueues: Seq<EnqueueModel>,
    ids: Seq<Seq<char>>,
    after: Tables,
)
    requires
        queue_fits(before),
        ids.len() == enqueues.len(),
        ids.no_duplicates(),
        forall|i: int| 0 <= i < ids.len() ==> !is_known(before, #[trigger] ids[i]),
        after.ready == enqueued(before.ready, enqueues, ids),
        after.running == before.running,
    ensures
        queue_fits(after),
{
    let added = Set::new(
        |row: QueueRow|
            exists|i: int|
                0 <= i < ids.len() && row == enqueued_row(#[trigger] enqueues[i], ids[i]),
    );
    lemma_rows_finite(enqueues, ids, ids.len() as int);
    assert(added =~= rows_of(enqueues, ids, ids.len() as int));
    assert(after.ready =~= before.ready.union(added));
    assert forall|a: QueueRow, b: QueueRow| #[trigger]
        after.ready.contains(a) && #[trigger] after.ready.contains(b) && a.id == b.id implies a
        == b by {
        if added.contains(a) && !before.ready.contains(a) {
            let i = choose|i: int|
                0 <= i < ids.len() && a == enqueued_row(#[trigger] enqueues[i], ids[i]);
            assert(!is_known(before, ids[i]));
            if before.ready.contains(b) {
                assert(is_known(before, b.id));
            }
        }
        if added.contains(b) && !before.ready.contains(b) {
            let j = choose|j: int|
                0 <= j < ids.len() && b == enqueued_row(#[trigger] enqueues[j], ids[j]);
            assert(!is_known(before, ids[j]));
            if before.ready.contains(a) {
                assert(is_known(before, a.id));
            }
        }
    }
    assert forall|a: QueueRow, b: QueueRow| #[trigger]
        after.ready.contains(a) && #[trigger] after.running.contains(b) implies a.id != b.id by {
        if !before.ready.contains(a) {
            let i = choose|i: int|
                0 <= i < ids.len() && a == enqueued_row(#[trigger] enqueues[i], ids[i]);
            assert(!is_known(before, ids[i]));
            assert(is_known(before, b.id));
        }
    }
}

spec fn rows_of(enqueues: Seq<EnqueueModel>, ids: Seq<Seq<char>>, count: int) -> Set<QueueRow> {
    Set::new(
        |row: QueueRow|
            exists|i: int|
                0 <= i < count && row == enqueued_row(#[trigger] enqueues[i], ids[i]),
    )
}

proof fn lemma_rows_finite(enqueues: Seq<EnqueueModel>, ids: Seq<Seq<char>>, count: int)
    requires
        0 <= count,
    ensures
        rows_of(enqueues, ids, count).finite(),
    decreases count,
{
    if count > 0 {
        lemma_rows_finite(enqueues, ids, count - 1);
        let fewer = rows_of(enqueues, ids, count - 1);
        let row = enqueued_row(enqueues[count - 1], ids[count - 1]);
        assert(rows_of(enqueues, ids, count) =~= fewer.insert(row));
    } else {
        assert(rows_of(enqueues, ids, count) =~= Set::empty());
    }
}

/// A message that was queued before all others is delivered first, once it is
/// due.
pub proof fn what_was_queued_is_delivered(
    codec: Codec,
    write: WriteModel,
    before: Tables,
    trace: Seq<Exchange>,
    end: Move<WriteOutcome>,
    after: Tables,
    index: int,
    task: DequeueRun,
    delivery_trace: Seq<Exchange>,
)
    requires
        writes(codec, write, before, trace, end, after),
        commit_of(end) is Some,
        0 <= index < write.enqueues.len(),
        forall|j: int|
            0 <= j < write.enqueues.len() && j != index ==> (#[trigger] write.enqueues[j]).deadline
                > write.enqueues[index].deadline,
        forall|row: QueueRow| #[trigger]
            before.ready.contains(row) ==> row.ts > write.enqueues[index].deadline,
        task.can_dispatch,
        write.enqueues[index].deadline <= task.now_ms,
        is_run(codec, task, task.start(), after, delivery_trace),
        no_failure(delivery_trace),
    ensures
        exists|id: Seq<char>|
            {
                let row = #[trigger] enqueued_row(write.enqueues[index], id);
                let then = tables_after(after, delivery_trace);
                &&& then == delivered(after, row)
                &&& is_dequeue_end(
                    then.ready,
                    Some(Delivery { id, payload: write.enqueues[index].payload }),
                    end_of(task, task.start(), delivery_trace),
                )
            },
{
    a_commit_queues_its_messages(codec, write, before, trace, end, after);
    a_dequeueing_delivers_the_first_due(codec, task, after, delivery_trace);
    let ids = choose|ids: Seq<Seq<char>>|
        ids.len() == write.enqueues.len() && after.ready == #[trigger] enqueued(
            before.ready,
            write.enqueues,
            ids,
        );
    let row = enqueued_row(write.enqueues[index], ids[index]);
    assert(after.ready.contains(row));
    assert(is_due(after.ready, task.now_ms, row));
    let first = choose|first: QueueRow| #[trigger]
        is_first_due(after.ready, task.now_ms, first) && tables_after(after, delivery_trace)
            == delivered(after, first) && is_dequeue_end(
            tables_after(after, delivery_trace).ready,
            Some(Delivery { id: first.id, payload: first.data }),
            end_of(task, task.start(), delivery_trace),
        );
    assert(first == row) by {
        assert(first.ts <= row.ts);
        if !before.ready.contains(first) {
            let j = choose|j: int|
                0 <= j < ids.len() && first == enqueued_row(
                    #[trigger] write.enqueues[j],
                    ids[j],
                );
            assert(j == index);
        }
    }
}

} // verus!
