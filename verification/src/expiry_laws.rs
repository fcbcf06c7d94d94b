//! What a collection of expired values comes to.

use crate::error::Fault;
use crate::expiry::{collect_expects, collect_step, CollectState, Collected, EXPIRY_INCREMENT};
use crate::failure_laws::{a_collection_reports_failures, a_failed_statement_ends_a_task};
use crate::notify::updates_of;
use crate::protocol::{
    end_of, is_run, lemma_next_exchange, lemma_no_exchange, lemma_start, no_failure, tables_after,
    Codec, Exchange, Protocol,
};
use crate::queue::due;
use crate::read_laws::values_fit;
use crate::request::{Answer, Move};
use crate::store_laws::{is_failure, row_at, versions_fit};
use crate::tables::{has_expired, is_earliest_expiration, unexpired, StoredRow, Tables};
use crate::versionstamp::versionstamp_of;
use vstd::prelude::*;

verus! {

/// The moves of a collection.
pub struct CollectRun {
    pub now_ms: i64,
}

impl Protocol for CollectRun {
    type State = CollectState;

    type Output = Collected;

    open spec fn next(self, state: CollectState, answer: Answer, id: Seq<char>) -> (
        CollectState,
        Move<Collected>,
    ) {
        collect_step(self.now_ms, state, answer)
    }

    open spec fn expects(self, state: CollectState, answer: Answer) -> bool {
        collect_expects(state, answer)
    }
}

impl CollectRun {
    /// The first move.
    pub open spec fn start(self) -> (CollectState, Move<Collected>) {
        collect_step(self.now_ms, CollectState::Fresh, Answer::Begin)
    }
}

/// Whether `keys` are those whose value has expired, each of them once.
pub open spec fn are_expired(
    kv: Map<Seq<u8>, StoredRow>,
    now_ms: i64,
    keys: Seq<Seq<u8>>,
) -> bool {
    keys.no_duplicates() && forall|key: Seq<u8>| #[trigger]
        keys.contains(key) <==> has_expired(kv, now_ms, key)
}

/// The tables after the values of those keys are collected.
pub open spec fn collected(before: Tables, now_ms: i64, keys: Seq<Seq<u8>>) -> Tables {
    Tables {
        data_version: if keys.len() > 0 {
            (before.data_version + EXPIRY_INCREMENT) as i64
        } else {
            before.data_version
        },
        kv: unexpired(before.kv, now_ms),
        ..before
    }
}

/// The last move of a collection of the values of those keys, after which the
/// next value expires at `ms`, if one does.
pub open spec fn collect_end(after: Tables, keys: Seq<Seq<u8>>, ms: Option<u64>) -> Move<
    Collected,
> {
    match due(ms) {
        Some(earliest_expiration_ms) => Move::Done(
            Ok(
                Collected {
                    earliest_expiration_ms,
                    updates: updates_of(keys, versionstamp_of(after.data_version as int)),
                },
            ),
        ),
        None => Move::ClockOverflow,
    }
}

/// A collection without a failed statement deletes the values that have expired,
/// and no others. Where it deletes any, it makes a new version of the data, and
/// tells those who watch their keys. It also tells when the next value expires.
pub proof fn a_collection_deletes_the_expired(
    codec: Codec,
    task: CollectRun,
    before: Tables,
    trace: Seq<Exchange>,
)
    requires
        is_run(codec, task, task.start(), before, trace),
        no_failure(trace),
    ensures
        exists|keys: Seq<Seq<u8>>, ms: Option<u64>|
            {
                &&& #[trigger] are_expired(before.kv, task.now_ms, keys)
                &&& keys.len() > 0 ==> before.data_version + EXPIRY_INCREMENT <= i64::MAX
                &&& tables_after(before, trace) == collected(before, task.now_ms, keys)
                &&& #[trigger] is_earliest_expiration(tables_after(before, trace).kv, ms)
                &&& end_of(task, task.start(), trace) == collect_end(
                    tables_after(before, trace),
                    keys,
                    ms,
                )
            },
{
    let at = task.start();
    lemma_start(codec, task, at, before, trace);
    lemma_next_exchange(codec, task, at, before, trace, 0, at, before);
    let keys = trace[0].answer->Keys_0;
    let then = trace[0].tables;
    assert(are_expired(before.kv, task.now_ms, keys));
    let next = collect_step(task.now_ms, CollectState::Deleting, trace[0].answer);
    lemma_next_exchange(codec, task, at, before, trace, 1, next, then);
    if keys.len() > 0 {
        let peek = collect_step(task.now_ms, next.0, trace[1].answer);
        lemma_next_exchange(codec, task, at, before, trace, 2, peek, trace[1].tables);
        assert(is_earliest_expiration(
            tables_after(before, trace).kv,
            trace[2].answer->Time_0,
        ));
    } else {
        assert(updates_of(keys, versionstamp_of(then.data_version as int)) =~= seq![]);
        assert(is_earliest_expiration(
            tables_after(before, trace).kv,
            trace[1].answer->Time_0,
        ));
    }
}

/// A value stays until its time is over, and forever if it has none.
pub proof fn an_unexpired_value_stays(
    codec: Codec,
    task: CollectRun,
    before: Tables,
    trace: Seq<Exchange>,
    key: Seq<u8>,
)
    requires
        is_run(codec, task, task.start(), before, trace),
        no_failure(trace),
        before.kv.contains_key(key),
        before.kv[key].expiration_ms < 0 || before.kv[key].expiration_ms > task.now_ms,
    ensures
        row_at(tables_after(before, trace).kv, key) == row_at(before.kv, key),
{
    a_collection_deletes_the_expired(codec, task, before, trace);
}

/// A value is gone once its time is over.
pub proof fn an_expired_value_is_gone(
    codec: Codec,
    task: CollectRun,
    before: Tables,
    trace: Seq<Exchange>,
    key: Seq<u8>,
)
    requires
        is_run(codec, task, task.start(), before, trace),
        no_failure(trace),
        has_expired(before.kv, task.now_ms, key),
    ensures
        row_at(tables_after(before, trace).kv, key) is None,
        tables_after(before, trace).data_version == before.data_version + EXPIRY_INCREMENT,
{
    a_collection_deletes_the_expired(codec, task, before, trace);
    let at = task.start();
    lemma_start(codec, task, at, before, trace);
    lemma_next_exchange(codec, task, at, before, trace, 0, at, before);
    let keys = trace[0].answer->Keys_0;
    assert(keys.contains(key));
    let next = collect_step(task.now_ms, CollectState::Deleting, trace[0].answer);
    lemma_next_exchange(codec, task, at, before, trace, 1, next, trace[0].tables);
    let found = choose|found: Seq<Seq<u8>>|
        are_expired(before.kv, task.now_ms, found) && tables_after(before, trace) == collected(
            before,
            task.now_ms,
            found,
        );
    assert(found.contains(key));
}

/// A collection keeps every value readable and of no later version than the data.
pub proof fn a_collection_keeps_values_in_order(
    codec: Codec,
    task: CollectRun,
    before: Tables,
    trace: Seq<Exchange>,
)
    requires
        is_run(codec, task, task.start(), before, trace),
        no_failure(trace),
        versions_fit(before),
        values_fit(before.kv),
    ensures
        versions_fit(tables_after(before, trace)),
        values_fit(tables_after(before, trace).kv),
{
    a_collection_deletes_the_expired(codec, task, before, trace);
}

/// A collection where no value has expired changes nothing, whatever it is told.
pub proof fn an_idle_collection_changes_nothing(
    codec: Codec,
    task: CollectRun,
    before: Tables,
    trace: Seq<Exchange>,
)
    requires
        is_run(codec, task, task.start(), before, trace),
        forall|key: Seq<u8>| !#[trigger] has_expired(before.kv, task.now_ms, key),
    ensures
        tables_after(before, trace) == before,
{
    let e = trace[0];
    let at = task.start();
    let rest = trace.skip(1);
    let next = collect_step(task.now_ms, at.0, e.answer);
    assert(task.next(at.0, e.answer, e.id) == next);
    assert(is_run(codec, task, next, e.tables, rest));
    if e.answer is Failed {
        lemma_no_exchange(codec, task, next, e.tables, rest);
    } else {
        let keys = e.answer->Keys_0;
        if keys.len() > 0 {
            assert(keys.contains(keys[0]));
        }
        assert(unexpired(before.kv, task.now_ms) =~= before.kv);
        let then = rest[0];
        let last = collect_step(task.now_ms, next.0, then.answer);
        assert(task.next(next.0, then.answer, then.id) == last);
        assert(is_run(codec, task, last, then.tables, rest.skip(1)));
        lemma_no_exchange(codec, task, last, then.tables, rest.skip(1));
    }
}

/// There is one earliest expiration.
proof fn lemma_one_earliest(kv: Map<Seq<u8>, StoredRow>, a: Option<u64>, b: Option<u64>)
    requires
        is_earliest_expiration(kv, a),
        is_earliest_expiration(kv, b),
    ensures
        a == b,
{
    if let Some(ms) = a {
        let key = choose|key: Seq<u8>| #[trigger]
            kv.contains_key(key) && kv[key].expiration_ms == ms;
        assert(kv.contains_key(key));
    }
    if let Some(ms) = b {
        let key = choose|key: Seq<u8>| #[trigger]
            kv.contains_key(key) && kv[key].expiration_ms == ms;
        assert(kv.contains_key(key));
    }
}

/// After a collection another one changes nothing, unless time has gone on. It
/// gives the same time of the next expiration and tells of no key, unless a
/// statement of it fails.
pub proof fn collecting_again_changes_nothing(
    codec: Codec,
    task: CollectRun,
    before: Tables,
    trace: Seq<Exchange>,
    again: CollectRun,
    other: Seq<Exchange>,
)
    requires
        is_run(codec, task, task.start(), before, trace),
        no_failure(trace),
        again.now_ms <= task.now_ms,
        is_run(codec, again, again.start(), tables_after(before, trace), other),
    ensures
        tables_after(tables_after(before, trace), other) == tables_after(before, trace),
        if no_failure(other) {
            end_of(again, again.start(), other) == match end_of(task, task.start(), trace) {
                Move::Done(Ok(first)) => Move::Done(
                    Ok::<Collected, Fault>(Collected { updates: seq![], ..first }),
                ),
                end => end,
            }
        } else {
            is_failure(end_of(again, again.start(), other))
        },
{
    a_collection_deletes_the_expired(codec, task, before, trace);
    let after = tables_after(before, trace);
    an_idle_collection_changes_nothing(codec, again, after, other);
    if no_failure(other) {
        a_collection_deletes_the_expired(codec, again, after, other);
        let end = end_of(task, task.start(), trace);
        let (keys, ms) = choose|keys: Seq<Seq<u8>>, ms: Option<u64>|
            #[trigger] are_expired(before.kv, task.now_ms, keys)
                && #[trigger] is_earliest_expiration(after.kv, ms) && end == collect_end(
                after,
                keys,
                ms,
            );
        let last = end_of(again, again.start(), other);
        let (none, then) = choose|none: Seq<Seq<u8>>, then: Option<u64>|
            #[trigger] are_expired(after.kv, again.now_ms, none)
                && #[trigger] is_earliest_expiration(after.kv, then) && last == collect_end(
                after,
                none,
                then,
            );
        lemma_one_earliest(after.kv, ms, then);
        if none.len() > 0 {
            assert(none.contains(none[0]));
        }
        assert(updates_of(none, versionstamp_of(after.data_version as int)) =~= seq![]);
    } else {
        let i = choose|i: int| 0 <= i < other.len() && (#[trigger] other[i]).answer is Failed;
        a_collection_reports_failures(again.now_ms);
        a_failed_statement_ends_a_task(
            codec,
            again,
            again.start(),
            after,
            other,
            i,
            other[i].answer->Failed_0,
        );
    }
}

} // verus!
