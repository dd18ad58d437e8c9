//! Fixed-width integers read from bytes, and two's-complement wrapping.

use vstd::prelude::*;

verus! {

/// 256 to the power `n`.
pub open spec fn pow256(n: nat) -> nat
    decreases n,
{
    if n == 0 {
        1
    } else {
        256 * pow256((n - 1) as nat)
    }
}

/// The unsigned number that a byte string spells in big-endian order.
pub open spec fn be_value(s: Seq<u8>) -> nat
    decreases s.len(),
{
    if s.len() == 0 {
        0
    } else {
        be_value(s.drop_last()) * 256 + s.last() as nat
    }
}

/// A 128-bit pattern read as a two's-complement signed number.
pub open spec fn wrap_i128(v: int) -> int {
    if v < 0x8000_0000_0000_0000_0000_0000_0000_0000 {
        v
    } else {
        v - 0x1_0000_0000_0000_0000_0000_0000_0000_0000
    }
}

/// The signed 128-bit number whose big-endian two's-complement bytes are `s`.
pub open spec fn i128_from_be(s: Seq<u8>) -> int {
    wrap_i128(be_value(s) as int)
}

/// Powers of 256 grow with the exponent.
proof fn lemma_pow256_monotone(a: nat, b: nat)
    requires
        a <= b,
    ensures
        pow256(a) <= pow256(b),
    decreases b,
{
    if a < b {
        lemma_pow256_monotone(a, (b - 1) as nat);
    }
}

/// Sixteen bytes span exactly the 128-bit numbers.
proof fn lemma_pow256_16()
    ensures
        pow256(16) == 0x1_0000_0000_0000_0000_0000_0000_0000_0000,
{
    reveal_with_fuel(pow256, 17);
}

/// Reinterprets a 128-bit pattern as a signed number (what `as i128` does).
pub fn u128_to_i128_wrapping(v: u128) -> (r: i128)
    ensures
        r == wrap_i128(v as int),
{
    if v < 0x8000_0000_0000_0000_0000_0000_0000_0000 {
        v as i128
    } else {
        let c = u128::MAX - v;
        -(c as i128) - 1
    }
}

/// Reads a signed 128-bit number from its sixteen big-endian bytes.
pub fn i128_from_be_bytes(b: &Vec<u8>) -> (r: i128)
    requires
        b@.len() == 16,
    ensures
        r == i128_from_be(b@),
{
    let mut acc: u128 = 0;
    let mut i: usize = 0;
    assert(b@.take(0) =~= Seq::<u8>::empty());
    while i < 16
        invariant
            b@.len() == 16,
            i <= 16,
            acc == be_value(b@.take(i as int)),
            be_value(b@.take(i as int)) < pow256(i as nat),
        decreases 16 - i,
    {
        proof {
            lemma_pow256_monotone(i as nat, 15);
            lemma_pow256_16();
            assert(b@.take(i + 1).drop_last() =~= b@.take(i as int));
            assert(b@.take(i + 1).last() == b@[i as int]);
        }
        acc = acc * 256 + b[i] as u128;
        i = i + 1;
    }
    assert(b@.take(16) =~= b@);
    u128_to_i128_wrapping(acc)
}

} // verus!
