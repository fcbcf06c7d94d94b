//! What a read gives, from its beginning to its end.

use crate::batch::{
    batch_step, batch_updates, failed_batch, paired, refused_batch, BatchState, WriteVerdict,
};
use crate::batch_laws::{
    a_batch_is_its_writes, batch_of, is_part, joined, tables_at, verdict_of, write_end, BatchRun,
    Part,
};
use crate::bytes::bytes_less;
use crate::commit_laws::is_write;
use crate::encoding_laws::{
    a_versionstamp_holds_its_version, holds, is_stamp, stored_bytes_hold_their_value,
};
use crate::error::{Failure, Fault};
use crate::mutation_laws::numbers_fit;
use crate::protocol::{end_of, is_run, no_failure, tables_after, Codec, Exchange};
use crate::read::{
    entries_of, scanned, snapshot_step, Entry, RangeModel, Snapshot, SnapshotPhase, SnapshotState,
};
use crate::read_laws::{a_snapshot_is_read, is_read, is_unknown_at, SnapshotRun};
use crate::request::{Answer, Move, Row};
use crate::tables::{in_range, StoredRow, Tables};
use crate::value::{decoded, Value};
use crate::versionstamp::versionstamp_of;
use crate::write::WriteModel;
use vstd::prelude::*;

verus! {

/// Whether a key lies in a range: not before its start, and before its end.
pub open spec fn lies_in(range: RangeModel, key: Seq<u8>) -> bool {
    !bytes_less(key, range.start) && bytes_less(key, range.end)
}

/// Whether a key is read before another one.
pub open spec fn comes_first(range: RangeModel, a: Seq<u8>, b: Seq<u8>) -> bool {
    if range.reverse {
        bytes_less(b, a)
    } else {
        bytes_less(a, b)
    }
}

/// Whether an entry is what a key holds.
pub open spec fn shows(kv: Map<Seq<u8>, StoredRow>, entry: Entry) -> bool {
    &&& kv.contains_key(entry.key)
    &&& holds(kv[entry.key].value, kv[entry.key].encoding, entry.value)
    &&& is_stamp(entry.versionstamp, kv[entry.key].version)
}

/// Whether entries are those of a range: what its keys hold, in the order of
/// reading, without a gap, and all of them unless there are as many as it asks for.
pub open spec fn is_listing(
    kv: Map<Seq<u8>, StoredRow>,
    range: RangeModel,
    entries: Seq<Entry>,
) -> bool {
    &&& entries.len() <= range.limit
    &&& forall|i: int|
        0 <= i < entries.len() ==> shows(kv, #[trigger] entries[i]) && lies_in(
            range,
            entries[i].key,
        )
    &&& forall|i: int, j: int|
        0 <= i < j < entries.len() ==> comes_first(
            range,
            (#[trigger] entries[i]).key,
            (#[trigger] entries[j]).key,
        )
    &&& forall|key: Seq<u8>| #[trigger]
        kv.contains_key(key) && lies_in(range, key) && (entries.len() < range.limit || (
        entries.len() > 0 && !comes_first(range, entries.last().key, key))) ==> exists|i: int|
            0 <= i < entries.len() && (#[trigger] entries[i]).key == key
}

proof fn lemma_listing(kv: Map<Seq<u8>, StoredRow>, range: RangeModel, entries: Seq<Entry>)
    requires
        is_read(kv, range, entries),
        numbers_fit(kv),
    ensures
        is_listing(kv, range, entries),
{
    assert forall|i: int| 0 <= i < entries.len() implies shows(kv, #[trigger] entries[i])
        && lies_in(range, entries[i].key) by {
        let row = kv[entries[i].key];
        stored_bytes_hold_their_value(entries[i].value, row.value, row.encoding);
        a_versionstamp_holds_its_version(entries[i].versionstamp, row.version);
    }
    assert forall|key: Seq<u8>| #[trigger]
        kv.contains_key(key) && lies_in(range, key) && (entries.len() < range.limit || (
        entries.len() > 0 && !comes_first(range, entries.last().key, key))) implies exists|i: int|
        0 <= i < entries.len() && (#[trigger] entries[i]).key == key by {
        assert(in_range(range.start, range.end, key));
    }
}

/// Whether an entry is what a row holds.
pub open spec fn is_entry_of(row: Row, entry: Entry) -> bool {
    &&& entry.key == row.key
    &&& holds(row.value, row.encoding, entry.value)
    &&& is_stamp(entry.versionstamp, row.version)
}

proof fn lemma_scanned_entries(rows: Seq<Row>) -> (first: int)
    requires
        forall|i: int|
            0 <= i < rows.len() && (#[trigger] rows[i]).encoding == 2 ==> rows[i].value.len() == 8,
    ensures
        match entries_of(rows) {
            Ok(entries) => entries.len() == rows.len() && forall|i: int|
                0 <= i < rows.len() ==> is_entry_of(rows[i], #[trigger] entries[i]) && 1
                    <= rows[i].encoding <= 3,
            Err(fault) => {
                &&& 0 <= first < rows.len()
                &&& !(1 <= rows[first].encoding <= 3)
                &&& fault == Fault::UnknownValueEncoding(rows[first].encoding)
                &&& forall|i: int| 0 <= i < first ==> 1 <= (#[trigger] rows[i]).encoding <= 3
            },
        },
    decreases rows.len(),
{
    if rows.len() == 0 {
        0
    } else {
        let fewer = rows.drop_last();
        let row = rows.last();
        assert forall|i: int| 0 <= i < fewer.len() && (#[trigger] fewer[i]).encoding == 2 implies
            fewer[i].value.len() == 8 by {
            assert(fewer[i] == rows[i]);
        }
        let first = lemma_scanned_entries(fewer);
        assert(rows[rows.len() - 1] == row);
        match entries_of(fewer) {
            Ok(earlier) => {
                match decoded(row.value, row.encoding) {
                    Some(value) => {
                        stored_bytes_hold_their_value(value, row.value, row.encoding);
                        let stamp = versionstamp_of(row.version as int);
                        a_versionstamp_holds_its_version(stamp, row.version);
                        let entries = entries_of(rows)->Ok_0;
                        assert forall|i: int| 0 <= i < rows.len() implies is_entry_of(
                            rows[i],
                            #[trigger] entries[i],
                        ) && 1 <= rows[i].encoding <= 3 by {
                            if i < fewer.len() {
                                assert(entries[i] == earlier[i]);
                                assert(fewer[i] == rows[i]);
                            }
                        }
                        0
                    },
                    None => {
                        stored_bytes_hold_their_value(Value::U64(0), row.value, row.encoding);
                        assert forall|i: int| 0 <= i < fewer.len() implies 1 <= (
                        #[trigger] rows[i]).encoding <= 3 by {
                            assert(is_entry_of(fewer[i], earlier[i]));
                            assert(fewer[i] == rows[i]);
                        }
                        rows.len() - 1
                    },
                }
            },
            Err(_) => {
                assert forall|i: int| 0 <= i < first implies 1 <= (#[trigger] rows[i]).encoding
                    <= 3 by {
                    assert(fewer[i] == rows[i]);
                }
                assert(fewer[first] == rows[first]);
                first
            },
        }
    }
}

/// The rows of a scan become the entries that they hold. The first row in an
/// encoding that is not known is reported before a failure behind the rows, and
/// that failure is reported where there is none.
pub proof fn rows_become_entries(rows: Seq<Row>, failure: Option<Failure>) -> (first: int)
    requires
        forall|i: int|
            0 <= i < rows.len() && (#[trigger] rows[i]).encoding == 2 ==> rows[i].value.len() == 8,
    ensures
        match scanned(rows, failure) {
            Ok(entries) => failure is None && entries.len() == rows.len() && forall|i: int|
                0 <= i < rows.len() ==> is_entry_of(rows[i], #[trigger] entries[i]),
            Err(fault) => {
                ||| (failure matches Some(e) && fault == Fault::Sqlite(e) && forall|i: int|
                    0 <= i < rows.len() ==> 1 <= (#[trigger] rows[i]).encoding <= 3)
                ||| {
                    &&& 0 <= first < rows.len()
                    &&& !(1 <= rows[first].encoding <= 3)
                    &&& fault == Fault::UnknownValueEncoding(rows[first].encoding)
                    &&& forall|i: int| 0 <= i < first ==> 1 <= (#[trigger] rows[i]).encoding <= 3
                }
            },
        },
{
    let first = lemma_scanned_entries(rows);
    if let Ok(entries) = entries_of(rows) {
        assert forall|i: int| 0 <= i < rows.len() implies 1 <= (#[trigger] rows[i]).encoding
            <= 3 by {
            assert(is_entry_of(rows[i], entries[i]));
        }
    }
    first
}

/// Whether a read is at its end so, from its beginning.
pub open spec fn is_reading(
    codec: Codec,
    requests: Seq<RangeModel>,
    before: Tables,
    trace: Seq<Exchange>,
    end: Move<Snapshot>,
) -> bool {
    let task = SnapshotRun { requests };
    let fresh = SnapshotState { phase: SnapshotPhase::Fresh, ranges: seq![] };
    let at = snapshot_step(requests, fresh, Answer::Begin);
    is_run(codec, task, at, before, trace) && end == end_of(task, at, trace)
}

/// A read changes nothing. Where it succeeds it gives what the keys of each range
/// hold and the versionstamp of the version of the data; otherwise it names the
/// first encoding that is not known, or a statement has failed.
pub proof fn a_read_gives_what_the_keys_hold(
    codec: Codec,
    requests: Seq<RangeModel>,
    before: Tables,
    trace: Seq<Exchange>,
    end: Move<Snapshot>,
)
    requires
        requests.len() <= usize::MAX,
        is_reading(codec, requests, before, trace, end),
        numbers_fit(before.kv),
    ensures
        tables_after(before, trace) == before,
        match end {
            Move::Done(Ok(snapshot)) => {
                &&& no_failure(trace)
                &&& is_stamp(snapshot.versionstamp, before.data_version)
                &&& snapshot.ranges.len() == requests.len()
                &&& forall|i: int|
                    0 <= i < requests.len() ==> is_listing(
                        before.kv,
                        requests[i],
                        #[trigger] snapshot.ranges[i],
                    )
            },
            Move::Done(Err(fault)) => if no_failure(trace) {
                exists|key: Seq<u8>, i: int|
                    {
                        &&& 0 <= i < requests.len()
                        &&& before.kv.contains_key(key)
                        &&& #[trigger] lies_in(requests[i], key)
                        &&& !(1 <= before.kv[key].encoding <= 3)
                        &&& fault == Fault::UnknownValueEncoding(before.kv[key].encoding)
                    }
            } else {
                fault is Sqlite
            },
            _ => false,
        },
{
    a_snapshot_is_read(codec, requests, before, trace);
    a_versionstamp_holds_its_version(
        versionstamp_of(before.data_version as int),
        before.data_version,
    );
    match end {
        Move::Done(Ok(snapshot)) => {
            assert forall|i: int| 0 <= i < requests.len() implies is_listing(
                before.kv,
                requests[i],
                #[trigger] snapshot.ranges[i],
            ) by {
                lemma_listing(before.kv, requests[i], snapshot.ranges[i]);
            }
        },
        Move::Done(Err(fault)) => {
            if no_failure(trace) {
                let (i, key) = choose|i: int, key: Seq<u8>| #[trigger]
                    is_unknown_at(requests, before.kv, i, key) && fault
                        == Fault::UnknownValueEncoding(before.kv[key].encoding);
                let row = before.kv[key];
                stored_bytes_hold_their_value(Value::U64(0), row.value, row.encoding);
                assert(lies_in(requests[i], key));
            }
        },
        _ => {},
    }
}

/// A batch, from its beginning, carries out each of its writes from its beginning
/// to its end, one after another, each on the tables that the one before it has
/// left. It gives the result of each, in their order.
pub proof fn a_batch_carries_out_each_write(
    codec: Codec,
    writes: Seq<WriteModel>,
    before: Tables,
    trace: Seq<Exchange>,
) -> (parts: Seq<Part>)
    requires
        is_run(
            codec,
            BatchRun { writes },
            batch_step(writes, BatchState::Fresh, Answer::Begin, seq![]),
            before,
            trace,
        ),
    ensures
        parts.len() == writes.len(),
        trace == joined(parts),
        tables_after(before, trace) == tables_at(before, parts, parts.len() as int),
        forall|i: int|
            0 <= i < writes.len() ==> is_write(
                codec,
                writes[i],
                tables_at(before, parts, i),
                (#[trigger] parts[i]).trace,
                write_end(writes[i], parts[i].trace),
                parts[i].after,
            ),
        end_of(
            BatchRun { writes },
            batch_step(writes, BatchState::Fresh, Answer::Begin, seq![]),
            trace,
        ) matches Move::Done(Ok(batch)) && batch.results.len() == writes.len() && forall|i: int|
            0 <= i < writes.len() ==> match write_end(writes[i], parts[i].trace) {
                Move::Done(Ok(outcome)) => #[trigger] batch.results[i] == Ok::<
                    Option<Seq<u8>>,
                    Fault,
                >(outcome.commit),
                Move::Done(Err(fault)) => batch.results[i] == Err::<Option<Seq<u8>>, Fault>(fault),
                _ => false,
            },
{
    let parts = a_batch_is_its_writes(codec, writes, before, trace);
    assert forall|i: int| 0 <= i < writes.len() implies is_write(
        codec,
        writes[i],
        tables_at(before, parts, i),
        (#[trigger] parts[i]).trace,
        write_end(writes[i], parts[i].trace),
        parts[i].after,
    ) by {
        assert(is_part(codec, writes[i], tables_at(before, parts, i), parts[i]));
    }
    let batch = batch_of(writes, parts);
    assert forall|i: int| 0 <= i < writes.len() implies match write_end(
        writes[i],
        parts[i].trace,
    ) {
        Move::Done(Ok(outcome)) => #[trigger] batch.results[i] == Ok::<Option<Seq<u8>>, Fault>(
            outcome.commit,
        ),
        Move::Done(Err(fault)) => batch.results[i] == Err::<Option<Seq<u8>>, Fault>(fault),
        _ => false,
    } by {
        assert(is_part(codec, writes[i], tables_at(before, parts, i), parts[i]));
        assert(batch.results[i] == verdict_of(write_end(writes[i], parts[i].trace)));
    }
    parts
}

/// After a batch those who watch keys are told of one write after another: of each
/// of its keys in turn where it has committed, and of none where it has not. Every
/// write counts that has a result.
pub proof fn updates_follow_the_writes(
    writes: Seq<WriteModel>,
    results: Seq<WriteVerdict>,
    count: int,
)
    requires
        0 < count <= paired(writes, results),
    ensures
        paired(writes, results) <= writes.len(),
        paired(writes, results) <= results.len(),
        paired(writes, results) == writes.len() || paired(writes, results) == results.len(),
        batch_updates(writes, results, 0).len() == 0,
        ({
            let earlier = batch_updates(writes, results, count - 1);
            let all = batch_updates(writes, results, count);
            let mutations = writes[count - 1].mutations;
            &&& all.take(earlier.len() as int) == earlier
            &&& match results[count - 1] {
                Ok(Some(stamp)) => all.len() == earlier.len() + mutations.len() && forall|j: int|
                    0 <= j < mutations.len() ==> {
                        &&& (#[trigger] all[earlier.len() + j]).key == mutations[j].key
                        &&& all[earlier.len() + j].versionstamp == stamp
                    },
                _ => all.len() == earlier.len(),
            }
        }),
{
    let earlier = batch_updates(writes, results, count - 1);
    let all = batch_updates(writes, results, count);
    assert(all.take(earlier.len() as int) =~= earlier);
}

/// A batch whose transaction fails has a failed result for each write: the first
/// one gets the error itself. One that is refused is refused for each write.
pub proof fn a_batch_fails_as_a_whole(count: nat, fault: Fault, i: int)
    requires
        0 <= i < count,
    ensures
        failed_batch(count, fault).len() == count,
        failed_batch(count, fault)[0] == Err::<Option<Seq<u8>>, Fault>(fault),
        i > 0 ==> failed_batch(count, fault)[i] == Err::<Option<Seq<u8>>, Fault>(
            Fault::Generic("batch transaction failed"@),
        ),
        refused_batch(count).len() == count,
        refused_batch(count)[i] == Err::<Option<Seq<u8>>, Fault>(Fault::WriteDisabled),
{
}

} // verus!
