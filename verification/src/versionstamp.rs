//! Versionstamps: the ten bytes that name a version of the data, and the keys
//! that end in one.

use crate::bytes::{
    base256, be_bytes, bytes_less, copy_bytes, lemma_be_bytes_len, lemma_be_bytes_order,
    lemma_bytes_less_irreflexive,
};
use vstd::prelude::*;

verus! {

/// The ten bytes that stand for a version of the data.
pub type Versionstamp = [u8; 10];

/// The first byte of a versionstamp suffix.
pub const SUFFIX_START: u8 = 2;

/// The last byte of a versionstamp suffix.
pub const SUFFIX_END: u8 = 0;

/// The 64-bit two's complement pattern of `version`, as a number.
pub open spec fn pattern64(version: int) -> nat {
    if version < 0 {
        (version + 0x1_0000_0000_0000_0000) as nat
    } else {
        version as nat
    }
}

/// The versionstamp of `version`: its eight big-endian bytes and two zeros.
pub open spec fn versionstamp_of(version: int) -> Seq<u8> {
    be_bytes(pattern64(version), 8) + seq![0u8, 0u8]
}

/// The lower-case hexadecimal digit of `n`, in ASCII.
pub open spec fn hex_digit(n: int) -> u8 {
    if n < 10 {
        (48 + n) as u8
    } else {
        (87 + n) as u8
    }
}

/// The lower-case hexadecimal digits of `data`, two to a byte.
pub open spec fn hex_digits(data: Seq<u8>) -> Seq<u8>
    decreases data.len(),
{
    if data.len() == 0 {
        seq![]
    } else {
        seq![hex_digit(data[0] as int / 16), hex_digit(data[0] as int % 16)] + hex_digits(
            data.drop_first(),
        )
    }
}

/// `key` followed by the versionstamp of `version` as a text part: the byte 2,
/// twenty hexadecimal digits, the byte 0.
pub open spec fn suffixed_key(key: Seq<u8>, version: int) -> Seq<u8> {
    key + (seq![SUFFIX_START] + hex_digits(versionstamp_of(version)) + seq![SUFFIX_END])
}

/// The versionstamp of a data version.
pub fn version_to_versionstamp(version: i64) -> (stamp: Versionstamp)
    ensures
        stamp@ == versionstamp_of(version as int),
{
    let pattern: u64 = if version >= 0 {
        version as u64
    } else {
        u64::MAX - (-(version + 1)) as u64
    };
    let mut stamp: Versionstamp = [0; 10];
    let mut rest: u64 = pattern;
    let mut left: usize = 8;
    assert(stamp@.subrange(8, 8) =~= seq![]);
    assert(be_bytes(pattern as nat, 8) + stamp@.subrange(8, 8) =~= be_bytes(pattern as nat, 8));
    while left > 0
        invariant
            left <= 8,
            stamp@.len() == 10,
            stamp@[8] == 0,
            stamp@[9] == 0,
            be_bytes(pattern as nat, 8) == be_bytes(rest as nat, left as nat) + stamp@.subrange(
                left as int,
                8,
            ),
        decreases left,
    {
        let ghost before = stamp@;
        let ghost head = be_bytes(rest as nat / 256, (left - 1) as nat);
        left = left - 1;
        stamp[left] = (rest % 256) as u8;
        proof {
            assert(stamp@.subrange(left as int, 8) =~= seq![(rest % 256) as u8] + before.subrange(
                left + 1,
                8,
            ));
            assert(head.push((rest % 256) as u8) + before.subrange(left + 1, 8) =~= head
                + stamp@.subrange(left as int, 8));
        }
        rest = rest / 256;
    }
    proof {
        assert(be_bytes(rest as nat, 0) + stamp@.subrange(0, 8) =~= stamp@.subrange(0, 8));
        assert(stamp@ =~= stamp@.subrange(0, 8) + seq![0u8, 0u8]);
    }
    stamp
}

/// `hex::encode_to_slice`, into twenty bytes: the lower-case hexadecimal digits
/// of the ten bytes of `data`, the high half of each byte first.
#[verifier::external_body]
fn hex_encode(data: &Versionstamp) -> (digits: [u8; 20])
    ensures
        digits@ == hex_digits(data@),
{
    let mut digits = [0u8; 20];
    hex::encode_to_slice(data, &mut digits).unwrap();
    digits
}

/// The key that a write with a versionstamped suffix stores under.
pub fn versionstamped_key(key: &Vec<u8>, version: i64) -> (suffixed: Vec<u8>)
    ensures
        suffixed@ == suffixed_key(key@, version as int),
{
    let stamp = version_to_versionstamp(version);
    let digits = hex_encode(&stamp);
    let mut suffixed = copy_bytes(key);
    suffixed.push(SUFFIX_START);
    let mut i: usize = 0;
    while i < 20
        invariant
            i <= 20,
            digits@.len() == 20,
            suffixed@ == key@ + (seq![SUFFIX_START] + digits@.take(i as int)),
        decreases 20 - i,
    {
        let ghost before = suffixed@;
        suffixed.push(digits[i]);
        i = i + 1;
        assert(digits@.take(i as int) =~= digits@.take(i - 1).push(digits@[i - 1]));
        assert(suffixed@ =~= key@ + (seq![SUFFIX_START] + digits@.take(i as int)));
    }
    suffixed.push(SUFFIX_END);
    assert(digits@.take(20) =~= digits@);
    assert(suffixed@ =~= suffixed_key(key@, version as int));
    suffixed
}

/// Whether two versionstamps are the same.
pub fn same_versionstamp(a: &Versionstamp, b: &Versionstamp) -> (same: bool)
    ensures
        same == (a@ == b@),
{
    let mut i: usize = 0;
    while i < 10
        invariant
            i <= 10,
            forall|j: int| 0 <= j < i ==> a@[j] == b@[j],
        decreases 10 - i,
    {
        if a[i] != b[i] {
            return false;
        }
        i = i + 1;
    }
    assert(a@ =~= b@);
    true
}

proof fn lemma_pattern64(version: i64)
    ensures
        pattern64(version as int) < base256(8),
{
    reveal_with_fuel(base256, 9);
}

/// Appending one string to both of two strings of one length keeps their order.
proof fn lemma_append_keeps_order(a: Seq<u8>, b: Seq<u8>, tail: Seq<u8>)
    requires
        a.len() == b.len(),
    ensures
        bytes_less(a + tail, b + tail) <==> bytes_less(a, b),
    decreases a.len(),
{
    if a.len() == 0 {
        assert(a + tail =~= tail);
        assert(b + tail =~= tail);
        lemma_bytes_less_irreflexive(tail);
    } else {
        assert((a + tail).drop_first() =~= a.drop_first() + tail);
        assert((b + tail).drop_first() =~= b.drop_first() + tail);
        lemma_append_keeps_order(a.drop_first(), b.drop_first(), tail);
    }
}

/// Putting one string in front of two strings keeps their order.
proof fn lemma_prepend_keeps_order(head: Seq<u8>, a: Seq<u8>, b: Seq<u8>)
    ensures
        bytes_less(head + a, head + b) <==> bytes_less(a, b),
    decreases head.len(),
{
    if head.len() == 0 {
        assert(head + a =~= a);
        assert(head + b =~= b);
    } else {
        assert((head + a).drop_first() =~= head.drop_first() + a);
        assert((head + b).drop_first() =~= head.drop_first() + b);
        lemma_prepend_keeps_order(head.drop_first(), a, b);
    }
}

proof fn lemma_hex_digits_order(a: Seq<u8>, b: Seq<u8>)
    requires
        a.len() == b.len(),
    ensures
        hex_digits(a).len() == 2 * a.len(),
        hex_digits(b).len() == 2 * b.len(),
        bytes_less(a, b) ==> bytes_less(hex_digits(a), hex_digits(b)),
    decreases a.len(),
{
    if a.len() > 0 {
        lemma_hex_digits_order(a.drop_first(), b.drop_first());
        let x = hex_digits(a);
        let y = hex_digits(b);
        assert(x.drop_first().drop_first() =~= hex_digits(a.drop_first()));
        assert(y.drop_first().drop_first() =~= hex_digits(b.drop_first()));
        reveal_with_fuel(bytes_less, 3);
    }
}

/// Later versions have greater versionstamps, byte by byte.
pub proof fn versionstamps_are_ordered(earlier: i64, later: i64)
    requires
        0 <= earlier < later,
    ensures
        bytes_less(versionstamp_of(earlier as int), versionstamp_of(later as int)),
{
    lemma_pattern64(earlier);
    lemma_pattern64(later);
    lemma_be_bytes_order(earlier as nat, later as nat, 8);
    lemma_be_bytes_len(earlier as nat, 8);
    lemma_be_bytes_len(later as nat, 8);
    lemma_append_keeps_order(
        be_bytes(earlier as nat, 8),
        be_bytes(later as nat, 8),
        seq![0u8, 0u8],
    );
}

/// Different versions have different versionstamps.
pub proof fn versionstamps_are_distinct(a: i64, b: i64)
    ensures
        versionstamp_of(a as int).len() == 10,
        versionstamp_of(a as int) == versionstamp_of(b as int) <==> a == b,
{
    let x = pattern64(a as int);
    let y = pattern64(b as int);
    lemma_pattern64(a);
    lemma_pattern64(b);
    lemma_be_bytes_order(x, y, 8);
    lemma_be_bytes_len(x, 8);
    lemma_be_bytes_len(y, 8);
    assert(versionstamp_of(a as int).take(8) =~= be_bytes(x, 8));
    assert(versionstamp_of(b as int).take(8) =~= be_bytes(y, 8));
}

/// Keys that one prefix and later and later versions make come out in the
/// order of the versions.
pub proof fn suffixed_keys_are_ordered(key: Seq<u8>, earlier: i64, later: i64)
    requires
        0 <= earlier < later,
    ensures
        suffixed_key(key, earlier as int).len() == key.len() + 22,
        bytes_less(suffixed_key(key, earlier as int), suffixed_key(key, later as int)),
{
    let a = versionstamp_of(earlier as int);
    let b = versionstamp_of(later as int);
    versionstamps_are_ordered(earlier, later);
    versionstamps_are_distinct(earlier, later);
    versionstamps_are_distinct(later, earlier);
    lemma_hex_digits_order(a, b);
    lemma_prepend_keeps_order(seq![SUFFIX_START], hex_digits(a), hex_digits(b));
    lemma_append_keeps_order(
        seq![SUFFIX_START] + hex_digits(a),
        seq![SUFFIX_START] + hex_digits(b),
        seq![SUFFIX_END],
    );
    lemma_prepend_keeps_order(
        key,
        seq![SUFFIX_START] + hex_digits(a) + seq![SUFFIX_END],
        seq![SUFFIX_START] + hex_digits(b) + seq![SUFFIX_END],
    );
}

} // verus!
