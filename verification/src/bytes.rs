//! Byte strings: base-256 numbers, their order, and plain copying.

use vstd::prelude::*;

verus! {

/// 256 to the power of `n`.
pub open spec fn base256(n: nat) -> nat
    decreases n,
{
    if n == 0 {
        1
    } else {
        256 * base256((n - 1) as nat)
    }
}

/// The number whose base-256 digits are `s`, least significant first.
pub open spec fn le_number(s: Seq<u8>) -> nat
    decreases s.len(),
{
    if s.len() == 0 {
        0
    } else {
        s[0] as nat + 256 * le_number(s.drop_first())
    }
}

/// The `n` least significant base-256 digits of `x`, least significant first.
pub open spec fn le_bytes(x: nat, n: nat) -> Seq<u8>
    decreases n,
{
    if n == 0 {
        seq![]
    } else {
        seq![(x % 256) as u8] + le_bytes(x / 256, (n - 1) as nat)
    }
}

/// The `n` least significant base-256 digits of `x`, most significant first.
pub open spec fn be_bytes(x: nat, n: nat) -> Seq<u8>
    decreases n,
{
    if n == 0 {
        seq![]
    } else {
        be_bytes(x / 256, (n - 1) as nat).push((x % 256) as u8)
    }
}

/// The order of byte strings: that of the first byte in which they differ, a
/// proper prefix coming first.
pub open spec fn bytes_less(a: Seq<u8>, b: Seq<u8>) -> bool
    decreases a.len(),
{
    if b.len() == 0 {
        false
    } else if a.len() == 0 {
        true
    } else {
        a[0] < b[0] || (a[0] == b[0] && bytes_less(a.drop_first(), b.drop_first()))
    }
}

pub proof fn lemma_le_bytes(x: nat, n: nat)
    ensures
        le_bytes(x, n).len() == n,
        x < base256(n) ==> le_number(le_bytes(x, n)) == x,
    decreases n,
{
    if n > 0 {
        lemma_le_bytes(x / 256, (n - 1) as nat);
        let s = le_bytes(x, n);
        assert(s.drop_first() =~= le_bytes(x / 256, (n - 1) as nat));
        assert(x == 256 * (x / 256) + x % 256);
    }
}

pub proof fn lemma_le_number(s: Seq<u8>)
    ensures
        le_number(s) < base256(s.len()),
        le_bytes(le_number(s), s.len()) == s,
    decreases s.len(),
{
    if s.len() > 0 {
        lemma_le_number(s.drop_first());
        let x = le_number(s);
        assert(x % 256 == s[0]);
        assert(x / 256 == le_number(s.drop_first()));
        assert(le_bytes(x, s.len()) =~= s);
    } else {
        assert(le_bytes(le_number(s), s.len()) =~= s);
    }
}

pub proof fn lemma_be_bytes_len(x: nat, n: nat)
    ensures
        be_bytes(x, n).len() == n,
    decreases n,
{
    if n > 0 {
        lemma_be_bytes_len(x / 256, (n - 1) as nat);
    }
}

/// A prefix in the same order decides the order of two strings of one length.
pub proof fn lemma_bytes_less_push(a: Seq<u8>, b: Seq<u8>, x: u8, y: u8)
    requires
        a.len() == b.len(),
    ensures
        bytes_less(a.push(x), b.push(y)) <==> bytes_less(a, b) || (a == b && x < y),
    decreases a.len(),
{
    reveal_with_fuel(bytes_less, 3);
    if a.len() == 0 {
        assert(a =~= b);
        assert(a.push(x).drop_first() =~= seq![]);
        assert(b.push(y).drop_first() =~= seq![]);
    } else {
        assert(a.push(x).drop_first() =~= a.drop_first().push(x));
        assert(b.push(y).drop_first() =~= b.drop_first().push(y));
        lemma_bytes_less_push(a.drop_first(), b.drop_first(), x, y);
        if a[0] == b[0] && a.drop_first() == b.drop_first() {
            assert(a =~= seq![a[0]] + a.drop_first());
            assert(b =~= seq![b[0]] + b.drop_first());
        }
    }
}

pub proof fn lemma_bytes_less_irreflexive(a: Seq<u8>)
    ensures
        !bytes_less(a, a),
    decreases a.len(),
{
    if a.len() > 0 {
        lemma_bytes_less_irreflexive(a.drop_first());
    }
}

/// Of two strings one comes first, or they are equal.
pub proof fn lemma_bytes_less_total(a: Seq<u8>, b: Seq<u8>)
    ensures
        a == b || bytes_less(a, b) || bytes_less(b, a),
    decreases a.len(),
{
    if a.len() == 0 && b.len() == 0 {
        assert(a =~= b);
    } else if a.len() > 0 && b.len() > 0 && a[0] == b[0] {
        lemma_bytes_less_total(a.drop_first(), b.drop_first());
        if a.drop_first() == b.drop_first() {
            assert(a =~= seq![a[0]] + a.drop_first());
            assert(b =~= seq![b[0]] + b.drop_first());
        }
    }
}

/// Of two strings at most one comes first.
pub proof fn lemma_bytes_less_asymmetric(a: Seq<u8>, b: Seq<u8>)
    requires
        bytes_less(a, b),
    ensures
        !bytes_less(b, a),
    decreases a.len(),
{
    if a.len() > 0 && a[0] == b[0] {
        lemma_bytes_less_asymmetric(a.drop_first(), b.drop_first());
    }
}

/// Big-endian digits of one length are ordered as the numbers are.
pub proof fn lemma_be_bytes_order(x: nat, y: nat, n: nat)
    requires
        x < base256(n),
        y < base256(n),
    ensures
        bytes_less(be_bytes(x, n), be_bytes(y, n)) <==> x < y,
        be_bytes(x, n) == be_bytes(y, n) <==> x == y,
    decreases n,
{
    if n > 0 {
        let m = (n - 1) as nat;
        lemma_be_bytes_order(x / 256, y / 256, m);
        lemma_be_bytes_len(x / 256, m);
        lemma_be_bytes_len(y / 256, m);
        let a = be_bytes(x / 256, m);
        let b = be_bytes(y / 256, m);
        lemma_bytes_less_push(a, b, (x % 256) as u8, (y % 256) as u8);
        assert(x == 256 * (x / 256) + x % 256);
        assert(y == 256 * (y / 256) + y % 256);
        assert(be_bytes(x, n).drop_last() =~= a);
        assert(be_bytes(y, n).drop_last() =~= b);
        assert(be_bytes(x, n).last() == (x % 256) as u8);
        assert(be_bytes(y, n).last() == (y % 256) as u8);
    }
}

/// The eight little-endian bytes of `x`.
pub fn le64_encode(x: u64) -> (bytes: Vec<u8>)
    ensures
        bytes@ == le_bytes(x as nat, 8),
{
    let mut bytes: Vec<u8> = Vec::new();
    let mut rest: u64 = x;
    let mut left: usize = 8;
    while left > 0
        invariant
            left <= 8,
            bytes@ + le_bytes(rest as nat, left as nat) == le_bytes(x as nat, 8),
        decreases left,
    {
        proof {
            let tail = le_bytes(rest as nat / 256, (left - 1) as nat);
            assert(bytes@.push((rest % 256) as u8) + tail =~= bytes@ + le_bytes(
                rest as nat,
                left as nat,
            ));
        }
        bytes.push((rest % 256) as u8);
        rest = rest / 256;
        left = left - 1;
    }
    assert(bytes@ + le_bytes(rest as nat, 0) =~= bytes@);
    bytes
}

/// The number whose eight little-endian bytes are `bytes`.
pub fn le64_decode(bytes: &Vec<u8>) -> (x: u64)
    requires
        bytes@.len() == 8,
    ensures
        x as nat == le_number(bytes@),
{
    let mut x: u64 = 0;
    let mut left: usize = 8;
    assert(bytes@.skip(8) =~= seq![]);
    while left > 0
        invariant
            left <= 8,
            bytes@.len() == 8,
            x as nat == le_number(bytes@.skip(left as int)),
        decreases left,
    {
        left = left - 1;
        proof {
            let s = bytes@.skip(left as int);
            assert(s.drop_first() =~= bytes@.skip(left + 1));
            lemma_le_number(s);
            assert(base256(s.len()) <= base256(8)) by {
                lemma_base256_monotonic(s.len(), 8);
            }
            assert(base256(8) == 0x1_0000_0000_0000_0000) by {
                reveal_with_fuel(base256, 9);
            }
        }
        x = x * 256 + bytes[left] as u64;
    }
    assert(bytes@.skip(0) =~= bytes@);
    x
}

pub proof fn lemma_base256_monotonic(m: nat, n: nat)
    requires
        m <= n,
    ensures
        1 <= base256(m) <= base256(n),
    decreases n,
{
    if m < n {
        lemma_base256_monotonic(m, (n - 1) as nat);
    } else if n > 0 {
        lemma_base256_monotonic((m - 1) as nat, (n - 1) as nat);
    }
}

/// A copy of a byte string.
pub fn copy_bytes(bytes: &Vec<u8>) -> (copy: Vec<u8>)
    ensures
        copy@ == bytes@,
{
    let copy = bytes.clone();
    assert(copy@ =~= bytes@);
    copy
}

/// A copy of a text.
pub fn copy_text(text: &String) -> (copy: String)
    ensures
        copy@ == text@,
{
    text.clone()
}

} // verus!
