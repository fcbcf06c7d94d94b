//! What each mutation of a write does to the values.

use crate::encoding_laws::{
    a_suffixed_key_holds_its_version, holds, is_suffixed, stored_bytes_hold_their_value,
};
use crate::error::Fault;
use crate::le64::Le64Op;
use crate::protocol::Codec;
use crate::sum::{checked_parameters, limited_number, sum_step, Operand, Parameters, SumStepModel};
use crate::tables::{value_at, StoredRow};
use crate::value::{decoded, Value};
use crate::versionstamp::suffixed_key;
use crate::write::{expiration, KindModel, MutationModel, NEVER_EXPIRES};
use crate::write_laws::{combined_value, kv_with, mutated, row_with, summed_value};
use vstd::prelude::*;

verus! {

/// Whether every stored number has its eight bytes.
pub open spec fn numbers_fit(kv: Map<Seq<u8>, StoredRow>) -> bool {
    forall|key: Seq<u8>| #[trigger]
        kv.contains_key(key) && kv[key].encoding == 2 ==> kv[key].value.len() == 8
}

/// Whether the values `after` are those `before` but for one key, which holds a
/// value of that version.
pub open spec fn puts(
    before: Map<Seq<u8>, StoredRow>,
    after: Map<Seq<u8>, StoredRow>,
    key: Seq<u8>,
    value: Value,
    version: i64,
) -> bool {
    &&& after == before.insert(key, after[key])
    &&& holds(after[key].value, after[key].encoding, value)
    &&& after[key].version == version
}

/// Whether a 64-bit number is a sum, but for a carry.
pub open spec fn is_wrapped(sum: int, n: int) -> bool {
    0 <= n < 0x1_0000_0000_0000_0000 && (n == sum || n == sum - 0x1_0000_0000_0000_0000)
}

/// Whether a mutation of a kind makes `n` of the stored number `a` and its operand
/// `b`.
pub open spec fn is_combination(kind: KindModel, a: int, b: int, n: int) -> bool {
    match kind {
        KindModel::Sum { .. } => is_wrapped(a + b, n),
        KindModel::Min(_) => n <= a && n <= b && (n == a || n == b),
        KindModel::Max(_) => n >= a && n >= b && (n == a || n == b),
        _ => false,
    }
}

/// Whether a mutation of a number does this to the values: where there is no value
/// the operand is stored, and else the combination of the stored number with it.
pub open spec fn combines(
    kind: KindModel,
    operand: u64,
    before: Map<Seq<u8>, StoredRow>,
    after: Map<Seq<u8>, StoredRow>,
    key: Seq<u8>,
    version: i64,
) -> bool {
    exists|n: u64|
        {
            &&& #[trigger] puts(before, after, key, Value::U64(n), version)
            &&& after[key].expiration_ms == -1
            &&& if before.contains_key(key) {
                exists|a: u64|
                    #[trigger] holds(before[key].value, before[key].encoding, Value::U64(a))
                        && is_combination(kind, a as int, operand as int, n as int)
            } else {
                n == operand
            }
        }
}

/// Whether a limit is of the type of an operand, if there is one.
pub open spec fn fits_operand(limit: Option<Operand>, operand: Operand) -> bool {
    limit matches Some(limit) ==> (limit is BigInt == operand is BigInt) && (limit is Number
        == operand is Number) && (limit is KvU64 == operand is KvU64)
}

/// Whether a big integer is below a lower limit.
pub open spec fn is_below(sum: int, min: Option<Operand>) -> bool {
    min matches Some(Operand::BigInt(low)) && sum < low
}

/// Whether a big integer is above an upper limit.
pub open spec fn is_above(sum: int, max: Option<Operand>) -> bool {
    max matches Some(Operand::BigInt(high)) && sum > high
}

/// The bits of a limit that is a double.
pub open spec fn bits_of(limit: Option<Operand>) -> Option<u64> {
    match limit {
        Some(Operand::Number(bits)) => Some(bits),
        _ => None,
    }
}

/// Whether adding `operand` to `stored` within the limits gives `sum`.
pub open spec fn is_sum(
    codec: Codec,
    stored: Operand,
    operand: Operand,
    min: Option<Operand>,
    max: Option<Operand>,
    clamp: bool,
    sum: Operand,
) -> bool {
    match (stored, operand) {
        (Operand::BigInt(a), Operand::BigInt(b)) => {
            &&& sum matches Operand::BigInt(n)
            &&& is_below(a + b, min) || is_above(a + b, max) ==> clamp
            &&& !is_below(a + b, min) && !is_above(a + b, max) ==> n == a + b
            &&& is_below(a + b, min) ==> n == if is_above(min->0->BigInt_0, max) {
                max->0->BigInt_0
            } else {
                min->0->BigInt_0
            }
            &&& !is_below(a + b, min) && is_above(a + b, max) ==> n == max->0->BigInt_0
        },
        (Operand::Number(a), Operand::Number(b)) => {
            let added = (codec.add_numbers)(a, b, bits_of(min), bits_of(max));
            let low = min is Some && added.below_min;
            let high = max is Some && added.above_max;
            &&& sum matches Operand::Number(n)
            &&& low || high ==> clamp
            &&& !low && !high ==> n == added.sum
            &&& low ==> n == if max is Some && added.min_above_max {
                max->0->Number_0
            } else {
                min->0->Number_0
            }
            &&& !low && high ==> n == max->0->Number_0
        },
        (Operand::KvU64(a), Operand::KvU64(b)) => min is None && max is None
            && (sum matches Operand::KvU64(n) && is_wrapped(a + b, n as int)),
        (Operand::KvU64(a), Operand::BigInt(b)) => {
            &&& min is None
            &&& max is None
            &&& !clamp
            &&& 0 <= b < 0x1_0000_0000_0000_0000
            &&& sum matches Operand::KvU64(n)
            &&& is_wrapped(a + b, n as int)
        },
        _ => false,
    }
}

/// Whether a sum mutation does this to the values: where there is no value the
/// operand is stored, and else the sum of the stored value and the operand.
pub open spec fn adds(
    codec: Codec,
    mutation: MutationModel,
    before: Map<Seq<u8>, StoredRow>,
    after: Map<Seq<u8>, StoredRow>,
    version: i64,
) -> bool {
    let key = mutation.key;
    &&& mutation.kind matches KindModel::Sum { value, min_v8, max_v8, clamp }
    &&& (codec.read)(value) matches Ok(operand)
    &&& (codec.read_limit)(min_v8) matches Ok(min)
    &&& (codec.read_limit)(max_v8) matches Ok(max)
    &&& fits_operand(min, operand)
    &&& fits_operand(max, operand)
    &&& exists|sum: Operand|
        {
            &&& puts(before, after, key, #[trigger] (codec.write)(sum), version)
            &&& after[key].expiration_ms == -1
            &&& if before.contains_key(key) {
                exists|stored: Value|
                    {
                        &&& #[trigger] holds(before[key].value, before[key].encoding, stored)
                        &&& (codec.read)(stored) matches Ok(old)
                        &&& is_sum(codec, old, operand, min, max, clamp, sum)
                    }
            } else {
                sum == operand
            }
        }
}

/// When a value expires that is set with an expiration, or without one.
pub open spec fn is_expiration(expire_at: Option<i64>, expiration_ms: i64) -> bool {
    match expire_at {
        Some(t) => expiration_ms == t,
        None => expiration_ms == -1,
    }
}

/// Whether a mutation of a write that makes `version` does this to the values.
pub open spec fn is_effect(
    codec: Codec,
    mutation: MutationModel,
    before: Map<Seq<u8>, StoredRow>,
    after: Map<Seq<u8>, StoredRow>,
    version: i64,
) -> bool {
    let key = mutation.key;
    match mutation.kind {
        KindModel::SetValue(value) => puts(before, after, key, value, version) && is_expiration(
            mutation.expire_at,
            after[key].expiration_ms,
        ),
        KindModel::Delete => after == before.remove(key),
        KindModel::Sum { value: Value::U64(n), .. } => combines(
            mutation.kind,
            n,
            before,
            after,
            key,
            version,
        ),
        KindModel::Sum { .. } => adds(codec, mutation, before, after, version),
        KindModel::Min(value) => value matches Value::U64(n) && combines(
            mutation.kind,
            n,
            before,
            after,
            key,
            version,
        ),
        KindModel::Max(value) => value matches Value::U64(n) && combines(
            mutation.kind,
            n,
            before,
            after,
            key,
            version,
        ),
        KindModel::SetSuffixVersionstampedKey(value) => exists|suffixed: Seq<u8>| #[trigger]
            is_suffixed(suffixed, key, version) && puts(before, after, suffixed, value, version)
                && is_expiration(mutation.expire_at, after[suffixed].expiration_ms),
    }
}

/// Whether a mutation of numbers that is called `name` is refused so.
pub open spec fn refuses_number(
    name: Seq<char>,
    operand: Value,
    kv: Map<Seq<u8>, StoredRow>,
    key: Seq<u8>,
    fault: Fault,
) -> bool {
    if !(operand is U64) {
        fault == Fault::TypeMismatch(
            "Failed to perform '"@ + name + "' mutation on a non-U64 operand"@,
        )
    } else {
        &&& kv.contains_key(key)
        &&& kv[key].encoding != 2
        &&& fault == if kv[key].encoding == 1 || kv[key].encoding == 3 {
            Fault::TypeMismatch(
                "Failed to perform '"@ + name + "' mutation on a non-U64 value in the database"@,
            )
        } else {
            Fault::UnknownValueEncoding(kv[key].encoding)
        }
    }
}

/// The name of the type of an operand.
pub open spec fn kind_name(operand: Operand) -> Seq<char> {
    match operand {
        Operand::BigInt(_) => "BigInt"@,
        Operand::Number(_) => "Number"@,
        Operand::KvU64(_) => "KvU64"@,
    }
}

/// Whether adding `operand` to `stored` is refused so.
pub open spec fn refuses_sum(
    codec: Codec,
    stored: Operand,
    operand: Operand,
    min: Option<Operand>,
    max: Option<Operand>,
    clamp: bool,
    fault: Fault,
) -> bool {
    match (stored, operand) {
        (Operand::BigInt(a), Operand::BigInt(b)) => !clamp && (is_below(a + b, min) || is_above(
            a + b,
            max,
        )) && fault == Fault::SumOutOfRange,
        (Operand::Number(a), Operand::Number(b)) => {
            let added = (codec.add_numbers)(a, b, bits_of(min), bits_of(max));
            !clamp && ((min is Some && added.below_min) || (max is Some && added.above_max))
                && fault == Fault::SumOutOfRange
        },
        (Operand::KvU64(a), Operand::KvU64(b)) => (min is Some || max is Some) && fault
            == Fault::TypeMismatch("Cannot use min/max parameters with KvU64 operands"@),
        (Operand::KvU64(a), Operand::BigInt(b)) => (min is Some || max is Some || clamp || b < 0
            || b >= 0x1_0000_0000_0000_0000) && fault == Fault::TypeMismatch(
            "Cannot sum "@ + "KvU64"@ + " with "@ + "BigInt"@,
        ),
        _ => fault == Fault::TypeMismatch(
            "Cannot sum "@ + kind_name(stored) + " with "@ + kind_name(operand),
        ),
    }
}

/// Whether a sum mutation is refused so.
pub open spec fn refuses_adding(
    codec: Codec,
    mutation: MutationModel,
    kv: Map<Seq<u8>, StoredRow>,
    fault: Fault,
) -> bool {
    let key = mutation.key;
    &&& mutation.kind matches KindModel::Sum { value, min_v8, max_v8, clamp }
    &&& match ((codec.read)(value), (codec.read_limit)(min_v8), (codec.read_limit)(max_v8)) {
        (Ok(operand), Ok(min), Ok(max)) => {
            if !fits_operand(min, operand) || !fits_operand(max, operand) {
                fault == Fault::TypeMismatch(
                    "Min/max parameters have different types than the operand"@,
                )
            } else {
                &&& kv.contains_key(key)
                &&& if 1 <= kv[key].encoding <= 3 {
                    exists|stored: Value|
                        {
                            &&& #[trigger] holds(kv[key].value, kv[key].encoding, stored)
                            &&& match (codec.read)(stored) {
                                Ok(old) => refuses_sum(
                                    codec,
                                    old,
                                    operand,
                                    min,
                                    max,
                                    clamp,
                                    fault,
                                ),
                                Err(text) => fault == Fault::TypeMismatch(text),
                            }
                        }
                } else {
                    fault == Fault::TypeMismatch("Invalid sum operand"@)
                }
            }
        },
        _ => fault == Fault::TypeMismatch("Some of the parameters are not valid V8 values"@),
    }
}

/// Whether a mutation is refused so.
pub open spec fn is_refusal(
    codec: Codec,
    mutation: MutationModel,
    kv: Map<Seq<u8>, StoredRow>,
    fault: Fault,
) -> bool {
    match mutation.kind {
        KindModel::Sum { value: Value::U64(n), .. } => refuses_number(
            "sum"@,
            Value::U64(n),
            kv,
            mutation.key,
            fault,
        ),
        KindModel::Sum { .. } => refuses_adding(codec, mutation, kv, fault),
        KindModel::Min(value) => refuses_number("min"@, value, kv, mutation.key, fault),
        KindModel::Max(value) => refuses_number("max"@, value, kv, mutation.key, fault),
        _ => false,
    }
}

/// A row with a value holds it.
proof fn lemma_puts(
    kv: Map<Seq<u8>, StoredRow>,
    key: Seq<u8>,
    value: Value,
    version: i64,
    expiration_ms: i64,
)
    ensures
        puts(
            kv,
            kv.insert(key, row_with(value, version, expiration_ms)),
            key,
            value,
            version,
        ),
        numbers_fit(kv) ==> numbers_fit(kv.insert(key, row_with(value, version, expiration_ms))),
{
    stored_bytes_hold_their_value(value, seq![], 0);
    let row = row_with(value, version, expiration_ms);
    let after = kv.insert(key, row);
    assert(after =~= kv.insert(key, after[key]));
    if numbers_fit(kv) {
        assert forall|k: Seq<u8>| #[trigger]
            after.contains_key(k) && after[k].encoding == 2 implies after[k].value.len() == 8 by {
            if k != key {
                assert(kv.contains_key(k));
            }
        }
    }
}

proof fn lemma_combines(
    op: Le64Op,
    kind: KindModel,
    operand: Value,
    kv: Map<Seq<u8>, StoredRow>,
    key: Seq<u8>,
    version: i64,
)
    requires
        numbers_fit(kv),
        match op {
            Le64Op::Sum => kind is Sum,
            Le64Op::Min => kind is Min,
            Le64Op::Max => kind is Max,
        },
    ensures
        match kv_with(kv, key, combined_value(op, operand, value_at(kv, key)), version) {
            Ok(next) => {
                &&& operand matches Value::U64(n)
                &&& combines(kind, n, kv, next, key, version)
                &&& numbers_fit(next)
            },
            Err(fault) => refuses_number(
                match op {
                    Le64Op::Sum => "sum"@,
                    Le64Op::Min => "min"@,
                    Le64Op::Max => "max"@,
                },
                operand,
                kv,
                key,
                fault,
            ),
        },
{
    if let Value::U64(n) = operand {
        if kv.contains_key(key) {
            let row = kv[key];
            stored_bytes_hold_their_value(operand, row.value, row.encoding);
            if let Some(stored) = decoded(row.value, row.encoding) {
                stored_bytes_hold_their_value(stored, row.value, row.encoding);
            }
        }
        if let Ok(Value::U64(m)) = combined_value(op, operand, value_at(kv, key)) {
            lemma_puts(kv, key, Value::U64(m), version, NEVER_EXPIRES);
        }
    }
}

proof fn lemma_adds(
    codec: Codec,
    mutation: MutationModel,
    kv: Map<Seq<u8>, StoredRow>,
    version: i64,
)
    requires
        numbers_fit(kv),
        mutation.kind is Sum,
    ensures
        mutation.kind matches KindModel::Sum { value, min_v8, max_v8, clamp } && match kv_with(
            kv,
            mutation.key,
            summed_value(codec, value, min_v8, max_v8, clamp, value_at(kv, mutation.key)),
            version,
        ) {
            Ok(next) => adds(codec, mutation, kv, next, version) && numbers_fit(next),
            Err(fault) => refuses_adding(codec, mutation, kv, fault),
        },
{
    let key = mutation.key;
    if let KindModel::Sum { value, min_v8, max_v8, clamp } = mutation.kind {
        let old = value_at(kv, key);
        let parameters = checked_parameters(
            (codec.read)(value),
            (codec.read_limit)(min_v8),
            (codec.read_limit)(max_v8),
        );
        if let Ok(Parameters { operand, min, max }) = parameters {
            assert(fits_operand(min, operand) && fits_operand(max, operand));
            if kv.contains_key(key) {
                let row = kv[key];
                stored_bytes_hold_their_value(value, row.value, row.encoding);
                if let Some(stored) = decoded(row.value, row.encoding) {
                    stored_bytes_hold_their_value(stored, row.value, row.encoding);
                    assert(holds(row.value, row.encoding, stored));
                    if let Ok(before) = (codec.read)(stored) {
                        lemma_is_sum(codec, before, operand, min, max, clamp);
                        let sum = sum_of(codec, before, operand, min, max, clamp);
                        if let Ok(sum) = sum {
                            lemma_puts(kv, key, (codec.write)(sum), version, NEVER_EXPIRES);
                        }
                    }
                }
            } else {
                lemma_puts(kv, key, (codec.write)(operand), version, NEVER_EXPIRES);
            }
        }
    }
}

/// What a sum comes to, the addition of doubles included.
spec fn sum_of(
    codec: Codec,
    stored: Operand,
    operand: Operand,
    min: Option<Operand>,
    max: Option<Operand>,
    clamp: bool,
) -> Result<Operand, Fault> {
    match sum_step(stored, Parameters { operand, min, max }, clamp) {
        SumStepModel::Done(result) => result,
        SumStepModel::AddNumbers { current, operand, min, max } => limited_number(
            (codec.add_numbers)(current, operand, min, max),
            min,
            max,
            clamp,
        ),
    }
}

proof fn lemma_is_sum(
    codec: Codec,
    stored: Operand,
    operand: Operand,
    min: Option<Operand>,
    max: Option<Operand>,
    clamp: bool,
)
    requires
        fits_operand(min, operand),
        fits_operand(max, operand),
    ensures
        match sum_of(codec, stored, operand, min, max, clamp) {
            Ok(sum) => is_sum(codec, stored, operand, min, max, clamp, sum),
            Err(fault) => refuses_sum(codec, stored, operand, min, max, clamp, fault),
        },
{
}

/// A mutation has its effect, or is refused.
pub proof fn lemma_effect(
    codec: Codec,
    kv: Map<Seq<u8>, StoredRow>,
    mutation: MutationModel,
    version: i64,
)
    requires
        numbers_fit(kv),
    ensures
        match mutated(codec, kv, mutation, version) {
            Ok(next) => is_effect(codec, mutation, kv, next, version) && numbers_fit(next),
            Err(fault) => is_refusal(codec, mutation, kv, fault),
        },
{
    let key = mutation.key;
    let ms = expiration(mutation.expire_at);
    match mutation.kind {
        KindModel::SetValue(value) => {
            lemma_puts(kv, key, value, version, ms);
        },
        KindModel::Delete => {
            assert(numbers_fit(kv.remove(key)));
        },
        KindModel::Sum { value, min_v8, max_v8, clamp } => {
            if value is U64 {
                lemma_combines(Le64Op::Sum, mutation.kind, value, kv, key, version);
            } else {
                lemma_adds(codec, mutation, kv, version);
            }
        },
        KindModel::Min(value) => {
            lemma_combines(Le64Op::Min, mutation.kind, value, kv, key, version);
        },
        KindModel::Max(value) => {
            lemma_combines(Le64Op::Max, mutation.kind, value, kv, key, version);
        },
        KindModel::SetSuffixVersionstampedKey(value) => {
            a_suffixed_key_holds_its_version(key, version);
            lemma_puts(kv, suffixed_key(key, version as int), value, version, ms);
        },
    }
}

} // verus!
