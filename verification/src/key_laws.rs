//! What a key holds after a write.

use crate::commit_laws::{
    a_write_goes_its_course, a_write_is_refused_where_a_check_does_not_hold, are_effects,
    are_queued, check_holds, is_message_row, is_write, Course,
};
use crate::encoding_laws::{
    a_versionstamp_holds_its_version, hex_value, holds, is_stamp, is_suffixed, shows_digits,
    stored_bytes_hold_their_value,
};
use crate::error::Fault;
use crate::failure_laws::{a_task_that_succeeds_saw_no_failure, a_write_reports_failures};
use crate::json::{json_keys, json_schedule};
use crate::mutation_laws::{
    adds, bits_of, is_combination, is_effect, is_expiration, is_refusal, is_sum, numbers_fit, puts,
};
use crate::protocol::{no_failure, Codec, Exchange};
use crate::request::{Answer, Move};
use crate::store_laws::row_at;
use crate::sum::Operand;
use crate::tables::{QueueRow, StoredRow, Tables};
use crate::value::Value;
use crate::write::{write_step, KindModel, MutationModel, PhaseModel, WriteModel, WriteOutcome};
use crate::write_laws::WriteRun;
use vstd::prelude::*;

verus! {

/// Whether a mutation of a write that makes `version` touches a key.
pub open spec fn touches(mutation: MutationModel, version: i64, key: Seq<u8>) -> bool {
    if mutation.kind is SetSuffixVersionstampedKey {
        is_suffixed(key, mutation.key, version)
    } else {
        mutation.key == key
    }
}

/// Whether no mutation from `from` up to `to` touches a key.
pub open spec fn leave_alone(
    mutations: Seq<MutationModel>,
    from: int,
    to: int,
    version: i64,
    key: Seq<u8>,
) -> bool {
    forall|j: int| from <= j < to ==> !touches(#[trigger] mutations[j], version, key)
}

/// A mutation changes no key but the one that it touches.
proof fn lemma_other_key(
    codec: Codec,
    mutation: MutationModel,
    before: Map<Seq<u8>, StoredRow>,
    after: Map<Seq<u8>, StoredRow>,
    version: i64,
    key: Seq<u8>,
)
    requires
        is_effect(codec, mutation, before, after, version),
        !touches(mutation, version, key),
    ensures
        row_at(after, key) == row_at(before, key),
{
    match mutation.kind {
        KindModel::SetSuffixVersionstampedKey(value) => {
            let suffixed = choose|suffixed: Seq<u8>| #[trigger]
                is_suffixed(suffixed, mutation.key, version) && puts(
                    before,
                    after,
                    suffixed,
                    value,
                    version,
                );
            assert(suffixed != key);
            assert(after.contains_key(key) == before.insert(suffixed, after[suffixed]).contains_key(
                key,
            ));
        },
        KindModel::Delete => {},
        _ => {
            assert(after == before.insert(mutation.key, after[mutation.key]));
            assert(after.contains_key(key) == before.insert(
                mutation.key,
                after[mutation.key],
            ).contains_key(key));
        },
    }
}

/// Mutations that do not touch a key leave what it holds.
proof fn lemma_left_alone(
    codec: Codec,
    mutations: Seq<MutationModel>,
    version: i64,
    states: Seq<Map<Seq<u8>, StoredRow>>,
    from: int,
    to: int,
    key: Seq<u8>,
)
    requires
        are_effects(codec, mutations, version, states),
        0 <= from <= to < states.len(),
        leave_alone(mutations, from, to, version, key),
    ensures
        row_at(states[to], key) == row_at(states[from], key),
    decreases to - from,
{
    if from < to {
        lemma_left_alone(codec, mutations, version, states, from, to - 1, key);
        assert(is_effect(codec, mutations[to - 1], states[to - 1], states[to], version));
        lemma_other_key(codec, mutations[to - 1], states[to - 1], states[to], version, key);
    }
}

/// Whether a write commits.
pub open spec fn commits(
    codec: Codec,
    write: WriteModel,
    before: Tables,
    trace: Seq<Exchange>,
    after: Tables,
) -> bool {
    exists|outcome: WriteOutcome|
        #[trigger] is_write(
            codec,
            write,
            before,
            trace,
            Move::Done(Ok::<WriteOutcome, Fault>(outcome)),
            after,
        ) && outcome.commit is Some
}

/// A write that commits goes its course to the end.
pub proof fn a_commit_goes_its_course(
    codec: Codec,
    write: WriteModel,
    before: Tables,
    trace: Seq<Exchange>,
    after: Tables,
) -> (course: Course)
    requires
        commits(codec, write, before, trace, after),
        numbers_fit(before.kv),
    ensures
        no_failure(trace),
        course.states.len() == write.mutations.len() + 1,
        course.states[0] == before.kv,
        course.states.last() == after.kv,
        are_effects(codec, write.mutations, after.data_version, course.states),
        are_queued(before.ready, write.enqueues, course.rows, after.ready),
        forall|i: int|
            0 <= i < write.checks.len() ==> check_holds(before.kv, #[trigger] write.checks[i]),
{
    let outcome = choose|outcome: WriteOutcome|
        #[trigger] is_write(
            codec,
            write,
            before,
            trace,
            Move::Done(Ok::<WriteOutcome, Fault>(outcome)),
            after,
        ) && outcome.commit is Some;
    let end = Move::Done(Ok::<WriteOutcome, Fault>(outcome));
    let task = WriteRun { write };
    a_write_reports_failures(write);
    a_task_that_succeeds_saw_no_failure(
        codec,
        task,
        write_step(write, PhaseModel::Fresh, Answer::Begin, seq![]),
        before,
        trace,
    );
    assert forall|i: int| 0 <= i < write.checks.len() implies check_holds(
        before.kv,
        #[trigger] write.checks[i],
    ) by {
        if !check_holds(before.kv, write.checks[i]) {
            a_write_is_refused_where_a_check_does_not_hold(
                codec,
                write,
                before,
                trace,
                end,
                after,
                i,
            );
        }
    }
    a_write_goes_its_course(codec, write, before, trace, end, after)
}

/// What the mutation at `index` does to its key, where no other one touches it.
proof fn lemma_one_mutation(
    codec: Codec,
    write: WriteModel,
    before: Tables,
    trace: Seq<Exchange>,
    after: Tables,
    index: int,
    key: Seq<u8>,
) -> (states: (Map<Seq<u8>, StoredRow>, Map<Seq<u8>, StoredRow>))
    requires
        commits(codec, write, before, trace, after),
        numbers_fit(before.kv),
        0 <= index < write.mutations.len(),
        leave_alone(
            write.mutations,
            index + 1,
            write.mutations.len() as int,
            after.data_version,
            key,
        ),
    ensures
        is_effect(codec, write.mutations[index], states.0, states.1, after.data_version),
        row_at(after.kv, key) == row_at(states.1, key),
        leave_alone(write.mutations, 0, index, after.data_version, key) ==> row_at(states.0, key)
            == row_at(before.kv, key),
{
    let course = a_commit_goes_its_course(codec, write, before, trace, after);
    let states = course.states;
    let version = after.data_version;
    let count = write.mutations.len() as int;
    assert(is_effect(codec, write.mutations[index], states[index], states[index + 1], version));
    lemma_left_alone(codec, write.mutations, version, states, index + 1, count, key);
    if leave_alone(write.mutations, 0, index, version, key) {
        lemma_left_alone(codec, write.mutations, version, states, 0, index, key);
    }
    (states[index], states[index + 1])
}

/// Whether the mutation at `index` is the only one of a write that touches a key.
pub open spec fn alone_touches(
    mutations: Seq<MutationModel>,
    index: int,
    version: i64,
    key: Seq<u8>,
) -> bool {
    &&& 0 <= index < mutations.len()
    &&& mutations[index].key == key
    &&& leave_alone(mutations, 0, index, version, key)
    &&& leave_alone(mutations, index + 1, mutations.len() as int, version, key)
}

/// A number that a mutation of a committed write adds, or takes the minimum or
/// maximum with, is combined with the number that the key held: the sum wraps
/// around at 64 bits, the minimum and maximum are those of the two. A key without
/// a value gets the operand. The result does not expire.
pub proof fn a_stored_number_is_combined(
    codec: Codec,
    write: WriteModel,
    before: Tables,
    trace: Seq<Exchange>,
    after: Tables,
    index: int,
    a: u64,
    b: u64,
) -> (n: u64)
    requires
        commits(codec, write, before, trace, after),
        numbers_fit(before.kv),
        0 <= index < write.mutations.len(),
        alone_touches(write.mutations, index, after.data_version, write.mutations[index].key),
        match write.mutations[index].kind {
            KindModel::Sum { value, .. } => value == Value::U64(b),
            KindModel::Min(value) => value == Value::U64(b),
            KindModel::Max(value) => value == Value::U64(b),
            _ => false,
        },
        row_at(before.kv, write.mutations[index].key) matches Some(row) ==> holds(
            row.value,
            row.encoding,
            Value::U64(a),
        ),
    ensures
        row_at(after.kv, write.mutations[index].key) matches Some(row) && holds(
            row.value,
            row.encoding,
            Value::U64(n),
        ) && row.version == after.data_version && row.expiration_ms == -1,
        if before.kv.contains_key(write.mutations[index].key) {
            match write.mutations[index].kind {
                KindModel::Sum { .. } => n as int == (a + b) % 0x1_0000_0000_0000_0000,
                KindModel::Min(_) => n == if a < b {
                    a
                } else {
                    b
                },
                _ => n == if a < b {
                    b
                } else {
                    a
                },
            }
        } else {
            n == b
        },
{
    let mutation = write.mutations[index];
    let key = mutation.key;
    let version = after.data_version;
    let (old, new) = lemma_one_mutation(codec, write, before, trace, after, index, key);
    assert(row_at(old, key) == row_at(before.kv, key));
    let n = choose|n: u64|
        {
            &&& #[trigger] puts(old, new, key, Value::U64(n), version)
            &&& new[key].expiration_ms == -1
            &&& if old.contains_key(key) {
                exists|a: u64|
                    #[trigger] holds(old[key].value, old[key].encoding, Value::U64(a))
                        && is_combination(mutation.kind, a as int, b as int, n as int)
            } else {
                n == b
            }
        };
    assert(new.contains_key(key)) by {
        assert(old.insert(key, new[key]).contains_key(key));
    }
    n
}

/// A value that the last mutation of its key sets expires at the time that it was
/// given, whatever that is, and does not expire without one. The key holds just
/// that value, of the version of the write.
pub proof fn a_value_keeps_its_expiration(
    codec: Codec,
    write: WriteModel,
    before: Tables,
    trace: Seq<Exchange>,
    after: Tables,
    index: int,
    value: Value,
)
    requires
        commits(codec, write, before, trace, after),
        numbers_fit(before.kv),
        0 <= index < write.mutations.len(),
        write.mutations[index].kind == KindModel::SetValue(value),
        leave_alone(
            write.mutations,
            index + 1,
            write.mutations.len() as int,
            after.data_version,
            write.mutations[index].key,
        ),
    ensures
        row_at(after.kv, write.mutations[index].key) matches Some(row) && {
            &&& holds(row.value, row.encoding, value)
            &&& row.version == after.data_version
            &&& write.mutations[index].expire_at matches Some(t) ==> row.expiration_ms == t
            &&& write.mutations[index].expire_at is None ==> row.expiration_ms == -1
        },
{
    let key = write.mutations[index].key;
    let (old, new) = lemma_one_mutation(codec, write, before, trace, after, index, key);
    assert(new.contains_key(key)) by {
        assert(old.insert(key, new[key]).contains_key(key));
    }
}

/// A value under a key that ends in the versionstamp of its write is stored under
/// it, and expires at the time that it was given.
pub proof fn a_suffixed_value_is_stored(
    codec: Codec,
    write: WriteModel,
    before: Tables,
    trace: Seq<Exchange>,
    after: Tables,
    index: int,
    value: Value,
    key: Seq<u8>,
)
    requires
        commits(codec, write, before, trace, after),
        numbers_fit(before.kv),
        0 <= index < write.mutations.len(),
        write.mutations[index].kind == KindModel::SetSuffixVersionstampedKey(value),
        is_suffixed(key, write.mutations[index].key, after.data_version),
        leave_alone(
            write.mutations,
            index + 1,
            write.mutations.len() as int,
            after.data_version,
            key,
        ),
    ensures
        row_at(after.kv, key) matches Some(row) && {
            &&& holds(row.value, row.encoding, value)
            &&& row.version == after.data_version
            &&& write.mutations[index].expire_at matches Some(t) ==> row.expiration_ms == t
            &&& write.mutations[index].expire_at is None ==> row.expiration_ms == -1
        },
{
    let mutation = write.mutations[index];
    let version = after.data_version;
    let (old, new) = lemma_one_mutation(codec, write, before, trace, after, index, key);
    let suffixed = choose|suffixed: Seq<u8>| #[trigger]
        is_suffixed(suffixed, mutation.key, version) && puts(old, new, suffixed, value, version)
            && is_expiration(mutation.expire_at, new[suffixed].expiration_ms);
    lemma_one_suffix(key, suffixed, mutation.key, version);
    assert(new.contains_key(key)) by {
        assert(old.insert(key, new[key]).contains_key(key));
    }
}

/// A key and a version have one suffixed key.
proof fn lemma_one_suffix(a: Seq<u8>, b: Seq<u8>, key: Seq<u8>, version: i64)
    requires
        is_suffixed(a, key, version),
        is_suffixed(b, key, version),
    ensures
        a == b,
{
    let n = key.len() as int;
    let x = choose|stamp: Seq<u8>| #[trigger]
        is_stamp(stamp, version) && shows_digits(a, n + 1, stamp);
    let y = choose|stamp: Seq<u8>| #[trigger]
        is_stamp(stamp, version) && shows_digits(b, n + 1, stamp);
    a_versionstamp_holds_its_version(x, version);
    a_versionstamp_holds_its_version(y, version);
    assert forall|i: int| 0 <= i < a.len() implies a[i] == b[i] by {
        if i < n {
            assert(a[i] == a.take(n)[i] && b[i] == b.take(n)[i]);
        } else if n < i < n + 21 {
            let j = (i - n - 1) / 2;
            lemma_same_digits(a, b, n + 1, x, j);
            assert(i == n + 1 + 2 * j || i == n + 1 + 2 * j + 1);
        }
    }
    assert(a =~= b);
}

/// Two strings that show the same byte have the same digits there.
proof fn lemma_same_digits(a: Seq<u8>, b: Seq<u8>, at: int, data: Seq<u8>, i: int)
    requires
        shows_digits(a, at, data),
        shows_digits(b, at, data),
        0 <= i < data.len(),
    ensures
        a[at + 2 * i] == b[at + 2 * i],
        a[at + 2 * i + 1] == b[at + 2 * i + 1],
{
    let byte = data[i];
    lemma_one_byte(a[at + 2 * i], a[at + 2 * i + 1], b[at + 2 * i], b[at + 2 * i + 1], byte);
}

/// A byte has one pair of hexadecimal digits.
proof fn lemma_one_byte(a: u8, b: u8, c: u8, d: u8, byte: u8)
    requires
        hex_value(a) < 16,
        hex_value(b) < 16,
        16 * hex_value(a) + hex_value(b) == byte,
        hex_value(c) < 16,
        hex_value(d) < 16,
        16 * hex_value(c) + hex_value(d) == byte,
    ensures
        a == c,
        b == d,
{
}

/// A key that the last of its mutations deletes holds nothing.
pub proof fn a_deleted_key_holds_nothing(
    codec: Codec,
    write: WriteModel,
    before: Tables,
    trace: Seq<Exchange>,
    after: Tables,
    index: int,
)
    requires
        commits(codec, write, before, trace, after),
        numbers_fit(before.kv),
        0 <= index < write.mutations.len(),
        write.mutations[index].kind is Delete,
        leave_alone(
            write.mutations,
            index + 1,
            write.mutations.len() as int,
            after.data_version,
            write.mutations[index].key,
        ),
    ensures
        !after.kv.contains_key(write.mutations[index].key),
{
    let key = write.mutations[index].key;
    let (old, new) = lemma_one_mutation(codec, write, before, trace, after, index, key);
}

/// A key that no mutation touches holds what it held.
pub proof fn a_key_that_is_not_touched_keeps_its_row(
    codec: Codec,
    write: WriteModel,
    before: Tables,
    trace: Seq<Exchange>,
    after: Tables,
    key: Seq<u8>,
)
    requires
        commits(codec, write, before, trace, after),
        numbers_fit(before.kv),
        leave_alone(
            write.mutations,
            0,
            write.mutations.len() as int,
            after.data_version,
            key,
        ),
    ensures
        row_at(after.kv, key) == row_at(before.kv, key),
{
    let course = a_commit_goes_its_course(codec, write, before, trace, after);
    lemma_left_alone(
        codec,
        write.mutations,
        after.data_version,
        course.states,
        0,
        write.mutations.len() as int,
        key,
    );
}

/// A sum mutation of a committed write adds its operand to the value that the key
/// held. The sum of two doubles, with the limits that there are, is the one that
/// the addition of just these two gives; it is stored where it compares as within
/// the limits, and else the limit. The sum of two big integers is exact where it
/// lies within the limits, and else the limit. A key without a value gets the
/// operand.
pub proof fn a_sum_is_added_to_the_stored_value(
    codec: Codec,
    write: WriteModel,
    before: Tables,
    trace: Seq<Exchange>,
    after: Tables,
    index: int,
    operand: Operand,
    min: Option<Operand>,
    max: Option<Operand>,
    clamp: bool,
    held: Value,
    stored: Operand,
) -> (sum: Operand)
    requires
        commits(codec, write, before, trace, after),
        numbers_fit(before.kv),
        0 <= index < write.mutations.len(),
        alone_touches(write.mutations, index, after.data_version, write.mutations[index].key),
        write.mutations[index].kind matches KindModel::Sum { value, min_v8, max_v8, clamp: c }
            && !(value is U64) && (codec.read)(value) == Ok::<Operand, Seq<char>>(operand) && (
        codec.read_limit)(min_v8) == Ok::<Option<Operand>, Seq<char>>(min) && (codec.read_limit)(
            max_v8,
        ) == Ok::<Option<Operand>, Seq<char>>(max) && c == clamp,
        row_at(before.kv, write.mutations[index].key) matches Some(row) ==> holds(
            row.value,
            row.encoding,
            held,
        ) && (codec.read)(held) == Ok::<Operand, Seq<char>>(stored),
    ensures
        row_at(after.kv, write.mutations[index].key) matches Some(row) && holds(
            row.value,
            row.encoding,
            (codec.write)(sum),
        ) && row.version == after.data_version && row.expiration_ms == -1,
        !before.kv.contains_key(write.mutations[index].key) ==> sum == operand,
        before.kv.contains_key(write.mutations[index].key) ==> match (stored, operand) {
            (Operand::Number(a), Operand::Number(b)) => {
                let added = (codec.add_numbers)(a, b, bits_of(min), bits_of(max));
                if min is Some && added.below_min {
                    clamp && Some(sum) == if max is Some && added.min_above_max {
                        max
                    } else {
                        min
                    }
                } else if max is Some && added.above_max {
                    clamp && Some(sum) == max
                } else {
                    sum == Operand::Number(added.sum)
                }
            },
            (Operand::BigInt(a), Operand::BigInt(b)) => {
                if min matches Some(Operand::BigInt(low)) && a + b < low {
                    clamp && Some(sum) == if max matches Some(Operand::BigInt(high)) && high
                        < min->0->BigInt_0 {
                        max
                    } else {
                        min
                    }
                } else if max matches Some(Operand::BigInt(high)) && a + b > high {
                    clamp && Some(sum) == max
                } else {
                    sum == Operand::BigInt(a + b)
                }
            },
            (Operand::KvU64(a), Operand::KvU64(b)) => min is None && max is None
                && (sum matches Operand::KvU64(n) && n as int == (a + b)
                % 0x1_0000_0000_0000_0000),
            (Operand::KvU64(a), Operand::BigInt(b)) => min is None && max is None && !clamp && 0
                <= b <= u64::MAX && (sum matches Operand::KvU64(n) && n as int == (a + b)
                % 0x1_0000_0000_0000_0000),
            _ => false,
        },
{
    let mutation = write.mutations[index];
    let key = mutation.key;
    let version = after.data_version;
    let (old, new) = lemma_one_mutation(codec, write, before, trace, after, index, key);
    assert(row_at(old, key) == row_at(before.kv, key));
    assert(adds(codec, mutation, old, new, version));
    let sum = choose|sum: Operand|
        {
            &&& puts(old, new, key, #[trigger] (codec.write)(sum), version)
            &&& new[key].expiration_ms == -1
            &&& if old.contains_key(key) {
                exists|v: Value|
                    {
                        &&& #[trigger] holds(old[key].value, old[key].encoding, v)
                        &&& (codec.read)(v) matches Ok(was)
                        &&& is_sum(codec, was, operand, min, max, clamp, sum)
                    }
            } else {
                sum == operand
            }
        };
    assert(new.contains_key(key)) by {
        assert(old.insert(key, new[key]).contains_key(key));
    }
    if old.contains_key(key) {
        let v = choose|v: Value|
            {
                &&& #[trigger] holds(old[key].value, old[key].encoding, v)
                &&& (codec.read)(v) matches Ok(was)
                &&& is_sum(codec, was, operand, min, max, clamp, sum)
            };
        assert(before.kv.contains_key(key) && before.kv[key] == old[key]);
        stored_bytes_hold_their_value(v, old[key].value, old[key].encoding);
        stored_bytes_hold_their_value(held, old[key].value, old[key].encoding);
        assert(v == held);
        assert((codec.read)(v) == Ok::<Operand, Seq<char>>(stored));
    }
    sum
}

/// A write of one mutation that is refused ends in the fault of that mutation, and
/// leaves the values and the queue as they were.
pub proof fn a_refused_mutation_changes_no_value(
    codec: Codec,
    write: WriteModel,
    before: Tables,
    trace: Seq<Exchange>,
    after: Tables,
    fault: Fault,
)
    requires
        is_write(
            codec,
            write,
            before,
            trace,
            Move::Done(Err::<WriteOutcome, Fault>(fault)),
            after,
        ),
        no_failure(trace),
        numbers_fit(before.kv),
        write.mutations.len() == 1,
    ensures
        after.kv == before.kv,
        after.ready == before.ready,
        is_refusal(codec, write.mutations[0], before.kv, fault),
{
    let end = Move::Done(Err::<WriteOutcome, Fault>(fault));
    assert forall|i: int| 0 <= i < write.checks.len() implies check_holds(
        before.kv,
        #[trigger] write.checks[i],
    ) by {
        if !check_holds(before.kv, write.checks[i]) {
            a_write_is_refused_where_a_check_does_not_hold(
                codec,
                write,
                before,
                trace,
                end,
                after,
                i,
            );
        }
    }
    let course = a_write_goes_its_course(codec, write, before, trace, end, after);
}

/// A message of a committed write is in the queue, due at its deadline, with its
/// payload, its keys, and all of its waiting times in their order; one without
/// waiting times gets the usual ones.
pub proof fn a_message_is_queued_whole(
    codec: Codec,
    write: WriteModel,
    before: Tables,
    trace: Seq<Exchange>,
    after: Tables,
    index: int,
) -> (queued: (QueueRow, Seq<u64>))
    requires
        commits(codec, write, before, trace, after),
        numbers_fit(before.kv),
        0 <= index < write.enqueues.len(),
    ensures
        after.ready.contains(queued.0),
        queued.0.ts == write.enqueues[index].deadline,
        queued.0.data == write.enqueues[index].payload,
        queued.0.keys_if_undelivered == json_keys(write.enqueues[index].keys_if_undelivered),
        queued.0.backoff_schedule == json_schedule(queued.1),
        write.enqueues[index].backoff_schedule matches Some(given) ==> queued.1.len() == given.len()
            && forall|i: int| 0 <= i < given.len() ==> #[trigger] queued.1[i] == given[i],
        write.enqueues[index].backoff_schedule is None ==> queued.1 == seq![
            100u64,
            1000,
            5000,
            30000,
            60000,
        ],
{
    let course = a_commit_goes_its_course(codec, write, before, trace, after);
    let enqueue = write.enqueues[index];
    let row = course.rows[index];
    assert(course.rows.contains(row));
    assert(is_message_row(enqueue, row));
    let times = choose|times: Seq<u64>|
        {
            &&& row.backoff_schedule == #[trigger] json_schedule(times)
            &&& match enqueue.backoff_schedule {
                Some(given) => times.len() == given.len() && forall|i: int|
                    0 <= i < given.len() ==> #[trigger] times[i] == given[i],
                None => times == seq![100u64, 1000, 5000, 30000, 60000],
            }
        };
    (row, times)
}

} // verus!
