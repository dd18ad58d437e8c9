//! Identifiers: SHA-256 digests of a byte framing of the fields that make a
//! record unique.  The digest itself is computed by the Soroban host.

use vstd::prelude::*;
use soroban_sdk::Env;

verus! {

/// The Soroban environment, carried through to the host's hash function.
#[verifier::external_type_specification]
#[verifier::external_body]
pub struct ExEnv(soroban_sdk::Env);

/// SHA-256 of a byte string, as the Soroban host computes it.
pub uninterp spec fn sha256_digest(data: Seq<u8>) -> Seq<u8>;

/// Calls `soroban_sdk::crypto::Crypto::sha256` on `data`, copied into host `Bytes`.
/// Trusted: the result is the host's SHA-256 of `data`, which is 32 bytes long.
/// The host meters the call; running out of its budget aborts the transaction,
/// which nothing here states.
#[verifier::external_body]
pub(crate) fn sha256(env: &Env, data: &Vec<u8>) -> (r: Vec<u8>)
    ensures
        r@ == sha256_digest(data@),
        r@.len() == 32,
{
    let bytes = soroban_sdk::Bytes::from_slice(env, data.as_slice());
    env.crypto().sha256(&bytes).to_array().to_vec()
}

/// The `n`-byte big-endian encoding of `v` (taken modulo `256^n`).
pub open spec fn be_bytes(v: nat, n: nat) -> Seq<u8>
    decreases n,
{
    if n == 0 {
        Seq::empty()
    } else {
        be_bytes(v / 256, (n - 1) as nat).push((v % 256) as u8)
    }
}

/// A byte string preceded by its length as eight big-endian bytes.
pub open spec fn framed(s: Seq<u8>) -> Seq<u8> {
    be_bytes(s.len(), 8) + s
}

/// Appends the `n`-byte big-endian encoding of `v`.
pub fn push_be(out: &mut Vec<u8>, v: u128, n: usize)
    ensures
        final(out)@ == old(out)@ + be_bytes(v as nat, n as nat),
    decreases n,
{
    if n == 0 {
        assert(old(out)@ + be_bytes(v as nat, 0) =~= old(out)@);
        return;
    }
    push_be(out, v / 256, n - 1);
    out.push((v % 256) as u8);
    assert(be_bytes(v as nat, n as nat) == be_bytes((v / 256) as nat, (n - 1) as nat).push(
        (v % 256) as u8,
    ));
    assert(out@ =~= old(out)@ + be_bytes(v as nat, n as nat));
}

/// Appends a byte string with its length in front.
pub fn push_framed(out: &mut Vec<u8>, s: &Vec<u8>)
    ensures
        final(out)@ == old(out)@ + framed(s@),
{
    push_be(out, s.len() as u128, 8);
    let ghost mid = out@;
    let mut i: usize = 0;
    while i < s.len()
        invariant
            i <= s.len(),
            out@ =~= mid + s@.subrange(0, i as int),
        decreases s.len() - i,
    {
        out.push(s[i]);
        i = i + 1;
    }
    assert(s@.subrange(0, s@.len() as int) =~= s@);
    assert(out@ =~= old(out)@ + framed(s@));
}

} // verus!
