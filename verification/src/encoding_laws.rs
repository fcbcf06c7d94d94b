//! What stored bytes, versionstamps and texts mean.

use crate::bigint::signed_number;
use crate::bytes::{
    base256, be_bytes, bytes_less, le_bytes, le_number, lemma_le_bytes, lemma_le_number,
};
use crate::clock::{later, unsigned};
use crate::decimal::decimal_digits;
use crate::json::{comma_separated, json_array, json_bytes, json_keys, json_schedule};
use crate::request::SqlInteger;
use crate::tables::sql_integer;
use crate::value::{decoded, encoded, well_encoded, Value};
use crate::versionstamp::{hex_digit, hex_digits, pattern64, suffixed_key, versionstamp_of};
use vstd::prelude::*;

verus! {

/// The number of eight bytes, of which the first one counts least.
pub open spec fn little_endian(b: Seq<u8>) -> int {
    b[0] + 0x100 * b[1] + 0x1_0000 * b[2] + 0x100_0000 * b[3] + 0x1_0000_0000 * b[4]
        + 0x100_0000_0000 * b[5] + 0x1_0000_0000_0000 * b[6] + 0x100_0000_0000_0000 * b[7]
}

/// The number of eight bytes, of which the first one counts most.
pub open spec fn big_endian(b: Seq<u8>) -> int {
    b[7] + 0x100 * b[6] + 0x1_0000 * b[5] + 0x100_0000 * b[4] + 0x1_0000_0000 * b[3]
        + 0x100_0000_0000 * b[2] + 0x1_0000_0000_0000 * b[1] + 0x100_0000_0000_0000 * b[0]
}

/// Whether `bytes` in `encoding` hold a value: an engine's own bytes are marked by
/// one, a number in eight bytes by two, plain bytes by three.
pub open spec fn holds(bytes: Seq<u8>, encoding: i64, value: Value) -> bool {
    match value {
        Value::V8(content) => bytes == content && encoding == 1,
        Value::U64(n) => bytes.len() == 8 && little_endian(bytes) == n && encoding == 2,
        Value::Bytes(content) => bytes == content && encoding == 3,
    }
}

/// Whether ten bytes are the versionstamp of a version: eight bytes of its two's
/// complement, of which the first one counts most, and two zeros.
pub open spec fn is_stamp(stamp: Seq<u8>, version: i64) -> bool {
    &&& stamp.len() == 10
    &&& stamp[8] == 0
    &&& stamp[9] == 0
    &&& big_endian(stamp) == if version < 0 {
        version + 0x1_0000_0000_0000_0000
    } else {
        version as int
    }
}

proof fn lemma_little_endian(b: Seq<u8>)
    requires
        b.len() == 8,
    ensures
        le_number(b) == little_endian(b),
{
    reveal_with_fuel(le_number, 9);
}

/// Values are stored so that the bytes and their encoding hold them, and read as
/// the one value that the bytes hold. No other encoding is known.
pub proof fn stored_bytes_hold_their_value(value: Value, bytes: Seq<u8>, encoding: i64)
    ensures
        holds(encoded(value).0, encoded(value).1, value),
        holds(bytes, encoding, value) ==> encoded(value) == (bytes, encoding),
        encoding == 2 ==> bytes.len() == 8 ==> (decoded(bytes, encoding) == Some(value) <==> holds(
            bytes,
            encoding,
            value,
        )),
        encoding != 2 ==> (decoded(bytes, encoding) == Some(value) <==> holds(
            bytes,
            encoding,
            value,
        )),
        decoded(bytes, encoding) is None <==> encoding != 1 && encoding != 2 && encoding != 3,
        well_encoded(bytes, encoding) <==> encoding != 2 || bytes.len() == 8,
{
    assert(base256(8) == 0x1_0000_0000_0000_0000) by {
        reveal_with_fuel(base256, 9);
    }
    if let Value::U64(n) = value {
        lemma_le_bytes(n as nat, 8);
        lemma_little_endian(le_bytes(n as nat, 8));
    }
    if bytes.len() == 8 {
        lemma_little_endian(bytes);
        lemma_le_number(bytes);
    }
}

/// The number of bytes of which the first one counts most.
spec fn be_number(s: Seq<u8>) -> nat
    decreases s.len(),
{
    if s.len() == 0 {
        0
    } else {
        256 * be_number(s.drop_last()) + s.last() as nat
    }
}

proof fn lemma_be_number(x: nat, n: nat)
    ensures
        be_bytes(x, n).len() == n,
        x < base256(n) ==> be_number(be_bytes(x, n)) == x,
    decreases n,
{
    if n > 0 {
        lemma_be_number(x / 256, (n - 1) as nat);
        let s = be_bytes(x, n);
        assert(s.drop_last() =~= be_bytes(x / 256, (n - 1) as nat));
        assert(x == 256 * (x / 256) + x % 256);
    }
}

proof fn lemma_be_bytes(s: Seq<u8>)
    ensures
        be_number(s) < base256(s.len()),
        be_bytes(be_number(s), s.len()) == s,
    decreases s.len(),
{
    if s.len() > 0 {
        lemma_be_bytes(s.drop_last());
        let x = be_number(s);
        assert(x % 256 == s.last());
        assert(x / 256 == be_number(s.drop_last()));
        assert(be_bytes(x, s.len()) =~= s);
    } else {
        assert(be_bytes(be_number(s), s.len()) =~= s);
    }
}

proof fn lemma_big_endian(b: Seq<u8>)
    requires
        b.len() == 8,
    ensures
        be_number(b) == big_endian(b),
{
    reveal_with_fuel(be_number, 9);
    let s1 = b.drop_last();
    let s2 = s1.drop_last();
    let s3 = s2.drop_last();
    let s4 = s3.drop_last();
    let s5 = s4.drop_last();
    let s6 = s5.drop_last();
    let s7 = s6.drop_last();
    let s8 = s7.drop_last();
    assert(s8.len() == 0);
    assert(be_number(s7) == b[0]);
    assert(be_number(s6) == 256 * be_number(s7) + b[1]);
    assert(be_number(s5) == 256 * be_number(s6) + b[2]);
    assert(be_number(s4) == 256 * be_number(s5) + b[3]);
    assert(be_number(s3) == 256 * be_number(s4) + b[4]);
    assert(be_number(s2) == 256 * be_number(s3) + b[5]);
    assert(be_number(s1) == 256 * be_number(s2) + b[6]);
    assert(be_number(b) == 256 * be_number(s1) + b[7]);
}

/// The versionstamp of a version is the one string of ten bytes that holds it.
pub proof fn a_versionstamp_holds_its_version(stamp: Seq<u8>, version: i64)
    ensures
        stamp == versionstamp_of(version as int) <==> is_stamp(stamp, version),
{
    let pattern = pattern64(version as int);
    assert(base256(8) == 0x1_0000_0000_0000_0000) by {
        reveal_with_fuel(base256, 9);
    }
    lemma_be_number(pattern, 8);
    let own = versionstamp_of(version as int);
    let digits = be_bytes(pattern, 8);
    assert(own.take(8) =~= digits);
    lemma_big_endian(digits);
    assert(big_endian(own) == big_endian(digits));
    assert(is_stamp(own, version));
    if is_stamp(stamp, version) {
        let first = stamp.take(8);
        lemma_big_endian(first);
        assert(big_endian(first) == big_endian(stamp));
        lemma_be_bytes(first);
        assert(first == digits);
        assert(stamp =~= own);
    }
}

/// The value of a lower-case hexadecimal digit in ASCII, or a number that is none.
pub open spec fn hex_value(digit: u8) -> int {
    if 48 <= digit <= 57 {
        digit - 48
    } else if 97 <= digit <= 102 {
        digit - 87
    } else {
        16
    }
}

/// Whether the bytes from `at` on are the hexadecimal digits of a byte string.
pub open spec fn shows_digits(bytes: Seq<u8>, at: int, data: Seq<u8>) -> bool {
    forall|i: int|
        0 <= i < data.len() ==> {
            let high = hex_value(bytes[at + 2 * i]);
            let low = hex_value(bytes[at + 2 * i + 1]);
            high < 16 && low < 16 && 16 * high + low == #[trigger] data[i]
        }
}

/// Whether a key is another one with the versionstamp of a version behind it: the
/// byte two, the stamp in lower-case hexadecimal digits, the byte zero.
pub open spec fn is_suffixed(suffixed: Seq<u8>, key: Seq<u8>, version: i64) -> bool {
    &&& suffixed.len() == key.len() + 22
    &&& suffixed.take(key.len() as int) == key
    &&& suffixed[key.len() as int] == 2
    &&& suffixed.last() == 0
    &&& exists|stamp: Seq<u8>| #[trigger]
        is_stamp(stamp, version) && shows_digits(suffixed, key.len() as int + 1, stamp)
}

proof fn lemma_hex_values(data: Seq<u8>, i: int)
    requires
        0 <= i < data.len(),
    ensures
        hex_digits(data).len() == 2 * data.len(),
        ({
            let high = hex_value(hex_digits(data)[2 * i]);
            let low = hex_value(hex_digits(data)[2 * i + 1]);
            high < 16 && low < 16 && 16 * high + low == data[i]
        }),
    decreases data.len(),
{
    let rest = data.drop_first();
    let digits = hex_digits(data);
    lemma_hex_len(rest);
    if i > 0 {
        lemma_hex_values(rest, i - 1);
        assert(digits[2 * i] == hex_digits(rest)[2 * (i - 1)]);
        assert(digits[2 * i + 1] == hex_digits(rest)[2 * (i - 1) + 1]);
        assert(data[i] == rest[i - 1]);
    } else {
        assert(digits[0] == hex_digit(data[0] as int / 16));
        assert(digits[1] == hex_digit(data[0] as int % 16));
    }
}

proof fn lemma_hex_len(data: Seq<u8>)
    ensures
        hex_digits(data).len() == 2 * data.len(),
    decreases data.len(),
{
    if data.len() > 0 {
        lemma_hex_len(data.drop_first());
    }
}

/// A key that ends in a versionstamp holds it in full.
pub proof fn a_suffixed_key_holds_its_version(key: Seq<u8>, version: i64)
    ensures
        is_suffixed(suffixed_key(key, version as int), key, version),
{
    let stamp = versionstamp_of(version as int);
    let suffixed = suffixed_key(key, version as int);
    a_versionstamp_holds_its_version(stamp, version);
    lemma_hex_len(stamp);
    assert(suffixed.take(key.len() as int) =~= key);
    let at = key.len() as int + 1;
    assert forall|i: int| 0 <= i < stamp.len() implies {
        let high = hex_value(suffixed[at + 2 * i]);
        let low = hex_value(suffixed[at + 2 * i + 1]);
        high < 16 && low < 16 && 16 * high + low == #[trigger] stamp[i]
    } by {
        lemma_hex_values(stamp, i);
        assert(suffixed[at + 2 * i] == hex_digits(stamp)[2 * i]);
        assert(suffixed[at + 2 * i + 1] == hex_digits(stamp)[2 * i + 1]);
    }
    assert(shows_digits(suffixed, at, stamp));
}

/// Byte strings are ordered by the first byte in which they differ; where they do
/// not differ, the shorter one comes first.
pub proof fn byte_strings_are_ordered(a: Seq<u8>, b: Seq<u8>)
    ensures
        bytes_less(a, b) <==> exists|i: int|
            {
                &&& 0 <= i <= a.len()
                &&& i < b.len()
                &&& #[trigger] a.take(i) == b.take(i)
                &&& i == a.len() || a[i] < b[i]
            },
    decreases a.len(),
{
    if b.len() > 0 && a.len() == 0 {
        assert(a.take(0) =~= b.take(0));
    } else if b.len() > 0 && a[0] < b[0] {
        assert(a.take(0) =~= b.take(0));
    } else if b.len() > 0 {
        let x = a.drop_first();
        let y = b.drop_first();
        byte_strings_are_ordered(x, y);
        if bytes_less(a, b) {
            let i = choose|i: int|
                0 <= i <= x.len() && i < y.len() && #[trigger] x.take(i) == y.take(i) && (i
                    == x.len() || x[i] < y[i]);
            assert(a.take(i + 1) =~= seq![a[0]] + x.take(i));
            assert(b.take(i + 1) =~= seq![b[0]] + y.take(i));
            assert(a.take(i + 1) == b.take(i + 1));
        }
        if exists|i: int|
            {
                &&& 0 <= i <= a.len()
                &&& i < b.len()
                &&& #[trigger] a.take(i) == b.take(i)
                &&& i == a.len() || a[i] < b[i]
            } {
            let i = choose|i: int|
                {
                    &&& 0 <= i <= a.len()
                    &&& i < b.len()
                    &&& #[trigger] a.take(i) == b.take(i)
                    &&& i == a.len() || a[i] < b[i]
                };
            assert(i > 0);
            assert(a.take(i)[0] == b.take(i)[0]);
            assert(x.take(i - 1) =~= a.take(i).drop_first());
            assert(y.take(i - 1) =~= b.take(i).drop_first());
            assert(x.take(i - 1) == y.take(i - 1));
            assert(i - 1 == x.len() || x[i - 1] < y[i - 1]);
        }
    }
}

/// A time goes to the database as it is from the epoch on; one before it becomes a
/// number that the database does not take.
pub proof fn times_keep_their_value(ms: i64)
    ensures
        ms >= 0 ==> sql_integer(SqlInteger::Unsigned(unsigned(ms as int) as u64)) == Some(ms),
        ms < 0 ==> sql_integer(SqlInteger::Unsigned(unsigned(ms as int) as u64)) is None,
        0 <= unsigned(ms as int) <= u64::MAX,
        (unsigned(ms as int) - ms) % 0x1_0000_0000_0000_0000 == 0,
{
}

/// A later point in time is the sum of the point and the span, and exists exactly
/// where both points lie within the range of the clock.
pub proof fn a_later_time_is_a_sum(ms: int, delta: int)
    ensures
        later(ms, delta) is Some <==> -8334601228800000 <= ms <= 8210266876799999
            && -8334601228800000 <= ms + delta <= 8210266876799999,
        later(ms, delta) matches Some(time) ==> time - delta == ms,
{
}

/// Two's complement bytes hold the one integer in their range that differs from
/// their plain number by a multiple of what they can hold.
pub proof fn signed_bytes_wrap_around(bytes: Seq<u8>)
    ensures
        bytes.len() == 0 ==> signed_number(bytes) == 0,
        bytes.len() > 0 ==> {
            &&& -128 * base256((bytes.len() - 1) as nat) <= signed_number(bytes) < 128 * base256(
                (bytes.len() - 1) as nat,
            )
            &&& signed_number(bytes) == le_number(bytes) || signed_number(bytes) == le_number(bytes)
                - 256 * base256((bytes.len() - 1) as nat)
        },
{
    if bytes.len() > 0 {
        let b = base256((bytes.len() - 1) as nat);
        let low = le_number(bytes.drop_last());
        let x = bytes.last() as int;
        lemma_last_byte(bytes);
        lemma_le_number(bytes.drop_last());
        assert(base256(bytes.len()) == 256 * b);
        if x >= 128 {
            assert(128 * b <= x * b && x * b <= 255 * b) by (nonlinear_arith)
                requires
                    128 <= x <= 255,
                    b >= 0,
            ;
        } else {
            assert(0 <= x * b && x * b <= 127 * b) by (nonlinear_arith)
                requires
                    0 <= x <= 127,
                    b >= 0,
            ;
        }
    }
}

/// The last byte counts most.
proof fn lemma_last_byte(s: Seq<u8>)
    requires
        s.len() > 0,
    ensures
        le_number(s) == le_number(s.drop_last()) + s.last() * base256((s.len() - 1) as nat),
    decreases s.len(),
{
    if s.len() > 1 {
        let rest = s.drop_first();
        lemma_last_byte(rest);
        let mid = rest.drop_last();
        assert(mid =~= s.drop_last().drop_first());
        let b = base256((s.len() - 2) as nat);
        assert(base256((s.len() - 1) as nat) == 256 * b);
        let x = s.last() as int;
        assert(rest.last() == s.last());
        assert(le_number(rest) == le_number(mid) + x * b);
        assert(le_number(s.drop_last()) == s[0] + 256 * le_number(mid));
        assert(x * (256 * b) == 256 * (x * b)) by (nonlinear_arith);
        assert(s.last() * base256((s.len() - 1) as nat) == 256 * (x * b));
        assert(le_number(s) == s[0] + 256 * le_number(rest));
    } else {
        assert(s.drop_first() =~= seq![]);
        assert(s.drop_last() =~= seq![]);
        assert(le_number(seq![]) == 0);
        assert(le_number(s) == s[0]);
        assert(base256(0) == 1);
        assert(s.last() * base256(0) == s.last());
    }
}

/// The number that decimal digits stand for.
pub open spec fn number_of_digits(digits: Seq<char>) -> int
    decreases digits.len(),
{
    if digits.len() == 0 {
        0
    } else {
        10 * number_of_digits(digits.drop_last()) + (digits.last() as int - '0' as int)
    }
}

/// The decimal digits of a number stand for it, and begin with zero for zero alone.
pub proof fn decimal_digits_stand_for_their_number(n: nat)
    ensures
        number_of_digits(decimal_digits(n)) == n,
        decimal_digits(n).len() > 0,
        decimal_digits(n)[0] == '0' <==> n == 0,
        forall|i: int|
            0 <= i < decimal_digits(n).len() ==> '0' <= #[trigger] decimal_digits(n)[i] <= '9',
    decreases n,
{
    let digits = decimal_digits(n);
    if n >= 10 {
        decimal_digits_stand_for_their_number(n / 10);
        assert(digits.drop_last() =~= decimal_digits(n / 10));
    } else {
        assert(digits.drop_last() =~= seq![]);
        reveal_with_fuel(number_of_digits, 2);
    }
}

/// A list in JSON stands in brackets; each further item comes behind a comma.
pub proof fn json_lists_its_items(items: Seq<Seq<char>>, item: Seq<char>)
    ensures
        json_array(seq![]) == seq!['[', ']'],
        json_array(seq![item]) == seq!['['] + item + seq![']'],
        items.len() > 0 ==> json_array(items.push(item)) == json_array(items).drop_last()
            + seq![','] + item + seq![']'],
{
    reveal_strlit("[");
    reveal_strlit("]");
    reveal_strlit(",");
    let more = items.push(item);
    assert(comma_separated(seq![]) =~= seq![]);
    assert(json_array(seq![]) =~= seq!['[', ']']);
    assert(comma_separated(seq![item]) == item);
    assert(json_array(seq![item]) =~= seq!['['] + item + seq![']']);
    if items.len() > 0 {
        assert(more.drop_last() =~= items);
        assert(json_array(more) =~= json_array(items).drop_last() + seq![','] + item + seq![']']);
    }
}

/// A schedule in JSON lists the decimal digits of its times, and keys in JSON list
/// the lists of their bytes.
pub proof fn json_writes_numbers_in_decimal(
    schedule: Seq<u64>,
    key: Seq<u8>,
    keys: Seq<Seq<u8>>,
)
    ensures
        exists|items: Seq<Seq<char>>|
            items.len() == schedule.len() && json_schedule(schedule) == #[trigger] json_array(items)
                && forall|i: int|
                0 <= i < items.len() ==> #[trigger] items[i] == decimal_digits(schedule[i] as nat),
        exists|items: Seq<Seq<char>>|
            items.len() == key.len() && json_bytes(key) == #[trigger] json_array(items)
                && forall|i: int|
                0 <= i < items.len() ==> #[trigger] items[i] == decimal_digits(key[i] as nat),
        exists|items: Seq<Seq<char>>|
            items.len() == keys.len() && json_keys(keys) == #[trigger] json_array(items)
                && forall|i: int|
                0 <= i < items.len() ==> #[trigger] items[i] == json_bytes(keys[i]),
{
    let a = Seq::new(schedule.len(), |i: int| decimal_digits(schedule[i] as nat));
    assert(json_schedule(schedule) == json_array(a));
    let b = Seq::new(key.len(), |i: int| decimal_digits(key[i] as nat));
    assert(json_bytes(key) == json_array(b));
    let c = Seq::new(keys.len(), |i: int| json_bytes(keys[i]));
    assert(json_keys(keys) == json_array(c));
}

} // verus!
