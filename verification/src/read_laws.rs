//! What a snapshot read finds in the tables.

use crate::bytes::{
    bytes_less, lemma_bytes_less_asymmetric, lemma_bytes_less_irreflexive, lemma_bytes_less_total,
};
use crate::error::Fault;
use crate::protocol::{
    end_of, is_run, lemma_first_exchange, lemma_no_exchange, no_failure, tables_after, Codec,
    Exchange, Protocol,
};
use crate::read::{
    entries_of, scan_from, snapshot_expects, snapshot_step, Entry, RangeModel, Snapshot,
    SnapshotState,
};
use crate::request::{Answer, Move, Row};
use crate::tables::{in_range, is_scan, precedes, scanned_row, StoredRow, Tables};
use crate::value::{decoded, well_encoded};
use crate::versionstamp::versionstamp_of;
use vstd::prelude::*;

verus! {

/// The moves of a snapshot read.
pub struct SnapshotRun {
    pub requests: Seq<RangeModel>,
}

impl Protocol for SnapshotRun {
    type State = SnapshotState;

    type Output = Snapshot;

    open spec fn next(self, state: SnapshotState, answer: Answer, id: Seq<char>) -> (
        SnapshotState,
        Move<Snapshot>,
    ) {
        snapshot_step(self.requests, state, answer)
    }

    open spec fn expects(self, state: SnapshotState, answer: Answer) -> bool {
        snapshot_expects(state.phase, answer)
    }
}

/// Whether every value is in an encoding that is known.
pub open spec fn values_fit(kv: Map<Seq<u8>, StoredRow>) -> bool {
    forall|key: Seq<u8>| #[trigger]
        kv.contains_key(key) ==> row_fits(kv[key])
}

/// Whether the value of a row is in an encoding that is known.
pub open spec fn row_fits(row: StoredRow) -> bool {
    well_encoded(row.value, row.encoding) && decoded(row.value, row.encoding) is Some
}

/// Whether every value of a range is in an encoding that is known.
pub open spec fn range_fits(kv: Map<Seq<u8>, StoredRow>, range: RangeModel) -> bool {
    forall|key: Seq<u8>| #[trigger]
        kv.contains_key(key) && in_range(range.start, range.end, key) ==> row_fits(kv[key])
}

/// The entry of a key.
pub open spec fn entry_at(kv: Map<Seq<u8>, StoredRow>, key: Seq<u8>) -> Entry {
    Entry {
        key,
        value: decoded(kv[key].value, kv[key].encoding)->0,
        versionstamp: versionstamp_of(kv[key].version as int),
    }
}

/// Whether the encoding of a row is known.
pub open spec fn is_known_encoding(row: StoredRow) -> bool {
    decoded(row.value, row.encoding) is Some
}

/// Whether `entries` are the first entries of a range, at most as many as it
/// asks for, and all of them in encodings that are known.
pub open spec fn is_read(
    kv: Map<Seq<u8>, StoredRow>,
    range: RangeModel,
    entries: Seq<Entry>,
) -> bool {
    &&& entries.len() <= range.limit
    &&& forall|i: int|
        0 <= i < entries.len() ==> {
            let key = (#[trigger] entries[i]).key;
            kv.contains_key(key) && in_range(range.start, range.end, key) && is_known_encoding(
                kv[key],
            ) && entries[i] == entry_at(kv, key)
        }
    &&& forall|i: int, j: int|
        0 <= i < j < entries.len() ==> precedes(
            range.reverse,
            (#[trigger] entries[i]).key,
            (#[trigger] entries[j]).key,
        )
    &&& forall|key: Seq<u8>| #[trigger]
        kv.contains_key(key) && in_range(range.start, range.end, key) ==> {
            ||| exists|i: int| 0 <= i < entries.len() && (#[trigger] entries[i]).key == key
            ||| entries.len() == range.limit && forall|i: int|
                0 <= i < entries.len() ==> precedes(
                    range.reverse,
                    (#[trigger] entries[i]).key,
                    key,
                )
        }
}

/// Rows that hold entries hold those of their keys.
proof fn lemma_entries(kv: Map<Seq<u8>, StoredRow>, rows: Seq<Row>)
    requires
        entries_of(rows) is Ok,
        forall|i: int| 0 <= i < rows.len() ==> #[trigger] rows[i] == scanned_row(kv, rows[i].key),
    ensures
        entries_of(rows) matches Ok(entries) && entries.len() == rows.len() && forall|i: int|
            0 <= i < rows.len() ==> #[trigger] entries[i] == entry_at(kv, rows[i].key)
                && is_known_encoding(kv[rows[i].key]),
    decreases rows.len(),
{
    if rows.len() > 0 {
        assert(rows.last() == scanned_row(kv, rows.last().key)) by {
            assert(rows[rows.len() - 1] == rows.last());
        }
        assert forall|i: int| 0 <= i < rows.drop_last().len() implies #[trigger] rows.drop_last()[i]
            == scanned_row(kv, rows.drop_last()[i].key) by {
            assert(rows.drop_last()[i] == rows[i]);
        }
        lemma_entries(kv, rows.drop_last());
        let entries = entries_of(rows)->Ok_0;
        assert forall|i: int| 0 <= i < rows.len() implies #[trigger] entries[i] == entry_at(
            kv,
            rows[i].key,
        ) && is_known_encoding(kv[rows[i].key]) by {
            if i < rows.len() - 1 {
                assert(rows.drop_last()[i] == rows[i]);
            }
        }
    }
}

/// A scan that holds entries gives those of its range.
proof fn lemma_scan(kv: Map<Seq<u8>, StoredRow>, range: RangeModel, rows: Seq<Row>)
    requires
        entries_of(rows) is Ok,
        is_scan(kv, range.start, range.end, range.limit as int, range.reverse, rows),
    ensures
        entries_of(rows) matches Ok(entries) && is_read(kv, range, entries),
{
    lemma_entries(kv, rows);
    let entries = entries_of(rows)->Ok_0;
    assert forall|i: int| 0 <= i < entries.len() implies (#[trigger] entries[i]).key
        == rows[i].key by {}
    assert forall|key: Seq<u8>| #[trigger]
        kv.contains_key(key) && in_range(range.start, range.end, key) implies {
        ||| exists|i: int| 0 <= i < entries.len() && (#[trigger] entries[i]).key == key
        ||| entries.len() == range.limit && forall|i: int|
            0 <= i < entries.len() ==> precedes(range.reverse, (#[trigger] entries[i]).key, key)
    } by {
        if exists|i: int| 0 <= i < rows.len() && (#[trigger] rows[i]).key == key {
            let i = choose|i: int| 0 <= i < rows.len() && (#[trigger] rows[i]).key == key;
            assert(entries[i].key == key);
        } else {
            assert forall|i: int| 0 <= i < entries.len() implies precedes(
                range.reverse,
                (#[trigger] entries[i]).key,
                key,
            ) by {
                assert(precedes(range.reverse, rows[i].key, key));
            }
        }
    }
}

/// Whether a snapshot read of the tables can end so.
pub open spec fn is_snapshot(
    requests: Seq<RangeModel>,
    tables: Tables,
    end: Move<Snapshot>,
) -> bool {
    &&& end matches Move::Done(Ok(snapshot))
    &&& snapshot.versionstamp == versionstamp_of(tables.data_version as int)
    &&& snapshot.ranges.len() == requests.len()
    &&& forall|i: int|
        0 <= i < requests.len() ==> is_read(
            tables.kv,
            requests[i],
            #[trigger] snapshot.ranges[i],
        )
}

/// Rows of which one is in an encoding that is not known hold no entries.
proof fn lemma_no_entries(rows: Seq<Row>, fault: Fault) -> (i: int)
    requires
        entries_of(rows) == Err::<Seq<Entry>, Fault>(fault),
    ensures
        0 <= i < rows.len(),
        decoded(rows[i].value, rows[i].encoding) is None,
        fault == Fault::UnknownValueEncoding(rows[i].encoding),
        entries_of(rows.take(i)) is Ok,
    decreases rows.len(),
{
    let fewer = rows.drop_last();
    if entries_of(fewer) is Err {
        let i = lemma_no_entries(fewer, fault);
        assert(fewer.take(i) =~= rows.take(i));
        i
    } else {
        assert(rows.take(rows.len() - 1) =~= fewer);
        rows.len() - 1
    }
}

/// Whether `entries` are those of the keys of a range that are read before `key`,
/// all of them in encodings that are known, and fewer than the range asks for.
pub open spec fn is_read_up_to(
    kv: Map<Seq<u8>, StoredRow>,
    range: RangeModel,
    entries: Seq<Entry>,
    key: Seq<u8>,
) -> bool {
    &&& entries.len() < range.limit
    &&& forall|i: int|
        0 <= i < entries.len() ==> {
            let earlier = (#[trigger] entries[i]).key;
            kv.contains_key(earlier) && in_range(range.start, range.end, earlier) && precedes(
                range.reverse,
                earlier,
                key,
            ) && is_known_encoding(kv[earlier]) && entries[i] == entry_at(kv, earlier)
        }
    &&& forall|i: int, j: int|
        0 <= i < j < entries.len() ==> precedes(
            range.reverse,
            (#[trigger] entries[i]).key,
            (#[trigger] entries[j]).key,
        )
    &&& forall|earlier: Seq<u8>| #[trigger]
        kv.contains_key(earlier) && in_range(range.start, range.end, earlier) && precedes(
            range.reverse,
            earlier,
            key,
        ) ==> exists|i: int| 0 <= i < entries.len() && (#[trigger] entries[i]).key == earlier
}

/// Whether a value of a range is the first one, in the order of reading, in an
/// encoding that is not known, and is among those that the range asks for.
pub open spec fn is_first_unknown(
    kv: Map<Seq<u8>, StoredRow>,
    range: RangeModel,
    key: Seq<u8>,
) -> bool {
    &&& kv.contains_key(key)
    &&& in_range(range.start, range.end, key)
    &&& !is_known_encoding(kv[key])
    &&& exists|entries: Seq<Entry>| is_read_up_to(kv, range, entries, key)
}

/// Whether a range can be read.
pub open spec fn is_readable(kv: Map<Seq<u8>, StoredRow>, range: RangeModel) -> bool {
    exists|entries: Seq<Entry>| is_read(kv, range, entries)
}

/// Whether a read finds the first value in an encoding that is not known in the
/// range at `index`, under `key`.
pub open spec fn is_unknown_at(
    requests: Seq<RangeModel>,
    kv: Map<Seq<u8>, StoredRow>,
    index: int,
    key: Seq<u8>,
) -> bool {
    &&& 0 <= index < requests.len()
    &&& is_first_unknown(kv, requests[index], key)
    &&& forall|i: int| 0 <= i < index ==> is_readable(kv, #[trigger] requests[i])
}

/// Whether a read fails on a value in an encoding that is not known, which is the
/// first one that it finds.
pub open spec fn is_unreadable(
    requests: Seq<RangeModel>,
    kv: Map<Seq<u8>, StoredRow>,
    fault: Fault,
) -> bool {
    exists|index: int, key: Seq<u8>| #[trigger]
        is_unknown_at(requests, kv, index, key) && fault == Fault::UnknownValueEncoding(
            kv[key].encoding,
        )
}

/// A scan that holds no entries has a first row in an encoding that is not known.
proof fn lemma_unknown_row(
    kv: Map<Seq<u8>, StoredRow>,
    range: RangeModel,
    rows: Seq<Row>,
    fault: Fault,
) -> (key: Seq<u8>)
    requires
        is_scan(kv, range.start, range.end, range.limit as int, range.reverse, rows),
        entries_of(rows) == Err::<Seq<Entry>, Fault>(fault),
    ensures
        is_first_unknown(kv, range, key),
        fault == Fault::UnknownValueEncoding(kv[key].encoding),
{
    let n = lemma_no_entries(rows, fault);
    let first = rows.take(n);
    let key = rows[n].key;
    assert forall|i: int| 0 <= i < first.len() implies #[trigger] first[i] == scanned_row(
        kv,
        first[i].key,
    ) by {
        assert(first[i] == rows[i]);
    }
    lemma_entries(kv, first);
    let entries = entries_of(first)->Ok_0;
    assert forall|i: int| 0 <= i < entries.len() implies {
        let earlier = (#[trigger] entries[i]).key;
        kv.contains_key(earlier) && in_range(range.start, range.end, earlier) && precedes(
            range.reverse,
            earlier,
            key,
        ) && is_known_encoding(kv[earlier]) && entries[i] == entry_at(kv, earlier)
    } by {
        assert(entries[i].key == rows[i].key);
    }
    assert forall|i: int, j: int| 0 <= i < j < entries.len() implies precedes(
        range.reverse,
        (#[trigger] entries[i]).key,
        (#[trigger] entries[j]).key,
    ) by {
        assert(entries[i].key == rows[i].key && entries[j].key == rows[j].key);
    }
    assert forall|earlier: Seq<u8>| #[trigger]
        kv.contains_key(earlier) && in_range(range.start, range.end, earlier) && precedes(
            range.reverse,
            earlier,
            key,
        ) implies exists|i: int| 0 <= i < entries.len() && (#[trigger] entries[i]).key
        == earlier by {
        lemma_precedes(range.reverse, earlier, key);
        if exists|i: int| 0 <= i < rows.len() && (#[trigger] rows[i]).key == earlier {
            let i = choose|i: int| 0 <= i < rows.len() && (#[trigger] rows[i]).key == earlier;
            if n < i {
                assert(precedes(range.reverse, rows[n].key, rows[i].key));
            }
            assert(entries[i].key == earlier);
        } else {
            assert(precedes(range.reverse, rows[n].key, earlier));
        }
    }
    assert(is_read_up_to(kv, range, entries, key));
    key
}

/// The keys of entries.
spec fn keys_of(entries: Seq<Entry>) -> Seq<Seq<u8>> {
    Seq::new(entries.len(), |i: int| entries[i].key)
}

/// A range with a value in an encoding that is not known cannot be read.
proof fn lemma_not_readable(kv: Map<Seq<u8>, StoredRow>, range: RangeModel, key: Seq<u8>)
    requires
        is_first_unknown(kv, range, key),
    ensures
        !is_readable(kv, range),
{
    if is_readable(kv, range) {
        let entries = choose|entries: Seq<Entry>| is_read(kv, range, entries);
        let before = choose|before: Seq<Entry>| is_read_up_to(kv, range, before, key);
        let all = keys_of(entries);
        let fewer = keys_of(before);
        if exists|i: int| 0 <= i < entries.len() && (#[trigger] entries[i]).key == key {
            let i = choose|i: int| 0 <= i < entries.len() && (#[trigger] entries[i]).key == key;
            assert(is_known_encoding(kv[entries[i].key]));
        } else {
            assert(all.no_duplicates()) by {
                assert forall|i: int, j: int| 0 <= i < j < all.len() implies all[i] != all[j] by {
                    lemma_precedes(range.reverse, entries[i].key, entries[j].key);
                }
            }
            assert forall|k: Seq<u8>| all.to_set().contains(k) implies fewer.to_set().contains(
                k,
            ) by {
                let i = choose|i: int| 0 <= i < all.len() && all[i] == k;
                assert(precedes(range.reverse, entries[i].key, key));
                assert(kv.contains_key(k));
                let j = choose|j: int| 0 <= j < before.len() && (#[trigger] before[j]).key == k;
                assert(fewer[j] == k);
            }
            all.unique_seq_to_set();
            fewer.lemma_cardinality_of_set();
            vstd::set_lib::lemma_len_subset(all.to_set(), fewer.to_set());
        }
    }
}

/// Whether a snapshot read can end so, without or with a failed statement.
pub open spec fn is_read_end(
    requests: Seq<RangeModel>,
    tables: Tables,
    end: Move<Snapshot>,
    failed: bool,
) -> bool {
    match end {
        Move::Done(Ok(_)) => !failed && is_snapshot(requests, tables, end),
        Move::Done(Err(fault)) => if failed {
            fault is Sqlite
        } else {
            is_unreadable(requests, tables.kv, fault)
        },
        _ => false,
    }
}

/// The ranges from `index` on are read.
proof fn lemma_ranges(
    codec: Codec,
    requests: Seq<RangeModel>,
    ranges: Seq<Seq<Entry>>,
    index: usize,
    tables: Tables,
    trace: Seq<Exchange>,
)
    requires
        requests.len() <= usize::MAX,
        index <= requests.len(),
        ranges.len() == index,
        forall|i: int| 0 <= i < index ==> is_read(tables.kv, requests[i], #[trigger] ranges[i]),
        is_run(
            codec,
            SnapshotRun { requests },
            scan_from(requests, ranges, index),
            tables,
            trace,
        ),
    ensures
        tables_after(tables, trace) == tables,
        is_read_end(
            requests,
            tables,
            end_of(SnapshotRun { requests }, scan_from(requests, ranges, index), trace),
            !no_failure(trace),
        ),
    decreases requests.len() - index,
{
    let task = SnapshotRun { requests };
    let at = scan_from(requests, ranges, index);
    let e = trace[0];
    let next = snapshot_step(requests, at.0, e.answer);
    let rest = trace.skip(1);
    assert(task.next(at.0, e.answer, e.id) == next);
    assert(is_run(codec, task, next, e.tables, rest));
    assert(end_of(task, at, trace) == end_of(task, next, rest));
    assert(no_failure(trace) <==> !(e.answer is Failed) && no_failure(rest)) by {
        assert forall|i: int| 0 <= i < rest.len() implies #[trigger] rest[i] == trace[i + 1] by {}
        assert forall|i: int| 1 <= i < trace.len() implies #[trigger] trace[i] == rest[i - 1] by {}
    }
    if next.1 is Ask {
        let rows = e.answer->Rows_0;
        lemma_scan(tables.kv, requests[index as int], rows);
        let entries = entries_of(rows)->Ok_0;
        lemma_ranges(codec, requests, ranges.push(entries), (index + 1) as usize, tables, rest);
    } else {
        lemma_no_exchange(codec, task, next, e.tables, rest);
        if !(e.answer is Failed) && index < requests.len() {
            let rows = e.answer->Rows_0;
            let fault = entries_of(rows)->Err_0;
            let key = lemma_unknown_row(tables.kv, requests[index as int], rows, fault);
            assert forall|i: int| 0 <= i < index implies is_readable(
                tables.kv,
                #[trigger] requests[i],
            ) by {
                assert(is_read(tables.kv, requests[i], ranges[i]));
            }
            assert(is_unknown_at(requests, tables.kv, index as int, key));
        }
    }
}

/// A snapshot read changes nothing. It gives the entries of each range and the
/// version of the data, unless a value that it comes to is in an encoding that is
/// not known, of which it names the first one, or a statement fails.
pub proof fn a_snapshot_is_read(
    codec: Codec,
    requests: Seq<RangeModel>,
    before: Tables,
    trace: Seq<Exchange>,
)
    requires
        requests.len() <= usize::MAX,
        is_run(codec, SnapshotRun { requests }, scan_from(requests, seq![], 0), before, trace),
    ensures
        tables_after(before, trace) == before,
        is_read_end(
            requests,
            before,
            end_of(SnapshotRun { requests }, scan_from(requests, seq![], 0), trace),
            !no_failure(trace),
        ),
{
    lemma_ranges(codec, requests, seq![], 0, before, trace);
}

/// A snapshot read of values in encodings that are known succeeds, unless a
/// statement fails.
pub proof fn known_encodings_are_read(
    codec: Codec,
    requests: Seq<RangeModel>,
    before: Tables,
    trace: Seq<Exchange>,
)
    requires
        requests.len() <= usize::MAX,
        forall|i: int| 0 <= i < requests.len() ==> range_fits(before.kv, #[trigger] requests[i]),
        is_run(codec, SnapshotRun { requests }, scan_from(requests, seq![], 0), before, trace),
        no_failure(trace),
    ensures
        is_snapshot(
            requests,
            before,
            end_of(SnapshotRun { requests }, scan_from(requests, seq![], 0), trace),
        ),
{
    a_snapshot_is_read(codec, requests, before, trace);
    let end = end_of(SnapshotRun { requests }, scan_from(requests, seq![], 0), trace);
    if let Move::Done(Err(fault)) = end {
        let (i, key) = choose|i: int, key: Seq<u8>| #[trigger]
            is_unknown_at(requests, before.kv, i, key);
        assert(range_fits(before.kv, requests[i]));
        assert(row_fits(before.kv[key]));
    }
}

/// A snapshot read that comes to a value in an encoding that is not known names
/// the first such encoding, unless a statement fails. It comes to no value behind
/// those that a range asks for.
pub proof fn the_first_unknown_encoding_is_reported(
    codec: Codec,
    requests: Seq<RangeModel>,
    before: Tables,
    trace: Seq<Exchange>,
    index: int,
    key: Seq<u8>,
)
    requires
        requests.len() <= usize::MAX,
        is_run(codec, SnapshotRun { requests }, scan_from(requests, seq![], 0), before, trace),
        no_failure(trace),
        is_unknown_at(requests, before.kv, index, key),
    ensures
        end_of(SnapshotRun { requests }, scan_from(requests, seq![], 0), trace) == Move::Done(
            Err::<Snapshot, Fault>(Fault::UnknownValueEncoding(before.kv[key].encoding)),
        ),
{
    a_snapshot_is_read(codec, requests, before, trace);
    let kv = before.kv;
    let end = end_of(SnapshotRun { requests }, scan_from(requests, seq![], 0), trace);
    lemma_not_readable(kv, requests[index], key);
    if let Move::Done(Ok(snapshot)) = end {
        assert(is_read(kv, requests[index], snapshot.ranges[index]));
    } else if let Move::Done(Err(fault)) = end {
        let (i, other) = choose|i: int, other: Seq<u8>| #[trigger]
            is_unknown_at(requests, kv, i, other) && fault == Fault::UnknownValueEncoding(
                kv[other].encoding,
            );
        lemma_not_readable(kv, requests[i], other);
        assert(i == index);
        let range = requests[index];
        lemma_precedes(range.reverse, key, other);
        let entries = choose|entries: Seq<Entry>| is_read_up_to(kv, range, entries, key);
        let others = choose|others: Seq<Entry>| is_read_up_to(kv, range, others, other);
        assert(!precedes(range.reverse, other, key));
        assert(!precedes(range.reverse, key, other));
    }
}

/// A snapshot read succeeds exactly where each of its ranges can be read, unless a
/// statement fails.
pub proof fn readable_ranges_are_read(
    codec: Codec,
    requests: Seq<RangeModel>,
    before: Tables,
    trace: Seq<Exchange>,
)
    requires
        requests.len() <= usize::MAX,
        is_run(codec, SnapshotRun { requests }, scan_from(requests, seq![], 0), before, trace),
        no_failure(trace),
    ensures
        (end_of(SnapshotRun { requests }, scan_from(requests, seq![], 0), trace) matches Move::Done(
            Ok(_),
        )) <==> forall|i: int|
            0 <= i < requests.len() ==> is_readable(before.kv, #[trigger] requests[i]),
{
    a_snapshot_is_read(codec, requests, before, trace);
    let end = end_of(SnapshotRun { requests }, scan_from(requests, seq![], 0), trace);
    if let Move::Done(Ok(snapshot)) = end {
        assert forall|i: int| 0 <= i < requests.len() implies is_readable(
            before.kv,
            #[trigger] requests[i],
        ) by {
            assert(is_read(before.kv, requests[i], snapshot.ranges[i]));
        }
    } else if let Move::Done(Err(fault)) = end {
        let (i, key) = choose|i: int, key: Seq<u8>| #[trigger]
            is_unknown_at(requests, before.kv, i, key);
        lemma_not_readable(before.kv, requests[i], key);
    }
}

/// The range of one key.
pub open spec fn only(key: Seq<u8>, reverse: bool) -> RangeModel {
    RangeModel { start: key, end: key.push(0), limit: 1, reverse }
}

pub proof fn lemma_only(start: Seq<u8>, key: Seq<u8>)
    ensures
        in_range(start, start.push(0), key) <==> key == start,
    decreases start.len(),
{
    reveal_with_fuel(bytes_less, 2);
    lemma_bytes_less_irreflexive(start);
    if start.len() == 0 {
        assert(start.push(0).drop_first() =~= seq![]);
        if key.len() == 0 {
            assert(key =~= start);
        }
    } else if key.len() == 0 {
    } else {
        lemma_only(start.drop_first(), key.drop_first());
        assert(start.push(0).drop_first() =~= start.drop_first().push(0));
        if key[0] == start[0] && key.drop_first() == start.drop_first() {
            assert(key =~= seq![key[0]] + key.drop_first());
            assert(start =~= seq![start[0]] + start.drop_first());
        }
    }
}

/// A read of one key gives its entry, if it has a value.
pub proof fn one_key_is_read(
    kv: Map<Seq<u8>, StoredRow>,
    key: Seq<u8>,
    reverse: bool,
    entries: Seq<Entry>,
)
    requires
        is_read(kv, only(key, reverse), entries),
    ensures
        entries == if kv.contains_key(key) {
            seq![entry_at(kv, key)]
        } else {
            seq![]
        },
{
    lemma_only(key, key);
    if entries.len() > 0 {
        lemma_only(key, entries[0].key);
    }
    if kv.contains_key(key) {
        assert(in_range(key, key.push(0), key));
        assert(entries =~= seq![entry_at(kv, key)]);
    }
}

proof fn lemma_precedes(reverse: bool, a: Seq<u8>, b: Seq<u8>)
    ensures
        precedes(reverse, a, b) ==> !precedes(reverse, b, a) && a != b,
        a == b || precedes(reverse, a, b) || precedes(reverse, b, a),
{
    lemma_bytes_less_total(a, b);
    if bytes_less(a, b) {
        lemma_bytes_less_asymmetric(a, b);
    }
    if bytes_less(b, a) {
        lemma_bytes_less_asymmetric(b, a);
    }
    lemma_bytes_less_irreflexive(a);
}

/// Whether `rows` are those of a range.
spec fn scans(kv: Map<Seq<u8>, StoredRow>, range: RangeModel, rows: Seq<Row>) -> bool {
    is_scan(kv, range.start, range.end, range.limit as int, range.reverse, rows)
}

/// Two scans of a range agree on the first rows that both have.
proof fn lemma_same_rows(
    kv: Map<Seq<u8>, StoredRow>,
    range: RangeModel,
    a: Seq<Row>,
    b: Seq<Row>,
    count: int,
)
    requires
        scans(kv, range, a),
        scans(kv, range, b),
        0 <= count <= a.len(),
        count <= b.len(),
    ensures
        forall|i: int| 0 <= i < count ==> #[trigger] a[i] == b[i],
    decreases count,
{
    if count > 0 {
        lemma_same_rows(kv, range, a, b, count - 1);
        let i = count - 1;
        lemma_not_before(kv, range, a, b, i);
        lemma_not_before(kv, range, b, a, i);
        lemma_precedes(range.reverse, a[i].key, b[i].key);
        assert(a[i].key == b[i].key);
    }
}

/// A row does not come before that of another scan after the same ones.
proof fn lemma_not_before(
    kv: Map<Seq<u8>, StoredRow>,
    range: RangeModel,
    a: Seq<Row>,
    b: Seq<Row>,
    i: int,
)
    requires
        scans(kv, range, a),
        scans(kv, range, b),
        0 <= i < a.len(),
        i < b.len(),
        forall|j: int| 0 <= j < i ==> #[trigger] a[j] == b[j],
    ensures
        !precedes(range.reverse, a[i].key, b[i].key),
{
    let key = a[i].key;
    assert(kv.contains_key(key) && in_range(range.start, range.end, key));
    lemma_precedes(range.reverse, key, b[i].key);
    if exists|j: int| 0 <= j < b.len() && (#[trigger] b[j]).key == key {
        let j = choose|j: int| 0 <= j < b.len() && (#[trigger] b[j]).key == key;
        if j < i {
            assert(a[j] == b[j]);
            lemma_precedes(range.reverse, a[j].key, a[i].key);
        } else if j > i {
            assert(precedes(range.reverse, b[i].key, b[j].key));
        }
    } else {
        assert(precedes(range.reverse, b[i].key, key));
    }
}

/// A scan has no more rows than another one of its range.
proof fn lemma_no_more(
    kv: Map<Seq<u8>, StoredRow>,
    range: RangeModel,
    a: Seq<Row>,
    b: Seq<Row>,
)
    requires
        scans(kv, range, a),
        scans(kv, range, b),
    ensures
        b.len() <= a.len(),
{
    if b.len() > a.len() {
        let n = a.len() as int;
        lemma_same_rows(kv, range, a, b, n);
        let key = b[n].key;
        assert(kv.contains_key(key) && in_range(range.start, range.end, key));
        let i = choose|i: int| 0 <= i < a.len() && (#[trigger] a[i]).key == key;
        assert(a[i] == b[i]);
        lemma_precedes(range.reverse, b[i].key, b[n].key);
    }
}

/// Two scans of a range give the same rows.
proof fn lemma_same_scan(
    kv: Map<Seq<u8>, StoredRow>,
    range: RangeModel,
    a: Seq<Row>,
    b: Seq<Row>,
)
    requires
        scans(kv, range, a),
        scans(kv, range, b),
    ensures
        a == b,
{
    lemma_no_more(kv, range, a, b);
    lemma_no_more(kv, range, b, a);
    lemma_same_rows(kv, range, a, b, a.len() as int);
    assert(a =~= b);
}

proof fn lemma_equal_reads(
    codec: Codec,
    requests: Seq<RangeModel>,
    ranges: Seq<Seq<Entry>>,
    index: usize,
    tables: Tables,
    trace: Seq<Exchange>,
    other: Seq<Exchange>,
)
    requires
        requests.len() <= usize::MAX,
        index <= requests.len(),
        is_run(codec, SnapshotRun { requests }, scan_from(requests, ranges, index), tables, trace),
        is_run(codec, SnapshotRun { requests }, scan_from(requests, ranges, index), tables, other),
        no_failure(trace),
        no_failure(other),
    ensures
        end_of(SnapshotRun { requests }, scan_from(requests, ranges, index), trace) == end_of(
            SnapshotRun { requests },
            scan_from(requests, ranges, index),
            other,
        ),
    decreases requests.len() - index,
{
    let task = SnapshotRun { requests };
    let at = scan_from(requests, ranges, index);
    lemma_first_exchange(codec, task, at, tables, trace);
    lemma_first_exchange(codec, task, at, tables, other);
    let next = snapshot_step(requests, at.0, trace[0].answer);
    if index < requests.len() {
        let rows = trace[0].answer->Rows_0;
        lemma_same_scan(tables.kv, requests[index as int], rows, other[0].answer->Rows_0);
        if let Ok(entries) = entries_of(rows) {
            lemma_equal_reads(
                codec,
                requests,
                ranges.push(entries),
                (index + 1) as usize,
                tables,
                trace.skip(1),
                other.skip(1),
            );
        } else {
            lemma_no_exchange(codec, task, next, tables, trace.skip(1));
            lemma_no_exchange(codec, task, next, tables, other.skip(1));
        }
    } else {
        lemma_no_exchange(codec, task, next, tables, trace.skip(1));
        lemma_no_exchange(codec, task, next, tables, other.skip(1));
    }
}

/// Equal reads of tables that have not changed come to the same, unless a
/// statement fails.
pub proof fn equal_reads_give_the_same(
    codec: Codec,
    requests: Seq<RangeModel>,
    before: Tables,
    trace: Seq<Exchange>,
    other: Seq<Exchange>,
)
    requires
        requests.len() <= usize::MAX,
        is_run(codec, SnapshotRun { requests }, scan_from(requests, seq![], 0), before, trace),
        is_run(codec, SnapshotRun { requests }, scan_from(requests, seq![], 0), before, other),
        no_failure(trace),
        no_failure(other),
    ensures
        end_of(SnapshotRun { requests }, scan_from(requests, seq![], 0), trace) == end_of(
            SnapshotRun { requests },
            scan_from(requests, seq![], 0),
            other,
        ),
{
    lemma_equal_reads(codec, requests, seq![], 0, before, trace, other);
}

} // verus!
