//! Deterministic byte encoding and content hashing.
//!
//! Every identity in the protocol — the request-identity hash, header
//! hashes, the countersigning session hash — is a hash of a canonical byte
//! encoding, so two values hash equal exactly when they were encoded from
//! equal field values. The hash is a polynomial accumulation modulo a prime
//! just below 2^64; it is a modelling hash, not a cryptographic one, and its
//! whole definition is the spec below.

use vstd::prelude::*;
use vstd::bytes::spec_u64_to_le_bytes;
use vstd::bytes::u64_to_le_bytes;

verus! {

/// Largest prime below 2^64; every hash value lies in [0, HASH_MOD).
pub const HASH_MOD: u64 = 18446744073709551557;

/// Multiplier of the polynomial accumulation.
pub const HASH_MUL: u64 = 31;

/// Seed of the accumulation (an arbitrary constant below HASH_MOD).
pub const HASH_SEED: u64 = 1469598103934665603;

/// The hash of a byte sequence: fold each byte into the accumulator.
pub open spec fn hash_bytes_spec(s: Seq<u8>) -> u64
    decreases s.len(),
{
    if s.len() == 0 {
        HASH_SEED
    } else {
        ((hash_bytes_spec(s.drop_last()) * HASH_MUL + s.last()) % (HASH_MOD as int)) as u64
    }
}

/// Compute the content hash of a byte string.
pub fn hash_bytes(bytes: &Vec<u8>) -> (h: u64)
    ensures
        h == hash_bytes_spec(bytes@),
{
    let mut h: u64 = HASH_SEED;
    let mut i: usize = 0;
    while i < bytes.len()
        invariant
            i <= bytes@.len(),
            h == hash_bytes_spec(bytes@.take(i as int)),
            h < HASH_MOD,
        decreases bytes@.len() - i,
    {
        let b = bytes[i];
        proof {
            assert((h as int) * (HASH_MUL as int) <= (HASH_MOD as int) * (HASH_MUL as int))
                by (nonlinear_arith)
                requires
                    h < HASH_MOD,
            ;
        }
        let wide: u128 = (h as u128) * (HASH_MUL as u128) + (b as u128);
        h = (wide % (HASH_MOD as u128)) as u64;
        proof {
            assert(bytes@.take(i + 1).drop_last() =~= bytes@.take(i as int));
            assert(bytes@.take(i + 1).last() == bytes@[i as int]);
        }
        i = i + 1;
    }
    proof {
        assert(bytes@.take(bytes@.len() as int) =~= bytes@);
    }
    h
}

/// Little-endian encoding of one 64-bit word.
pub open spec fn enc_u64(x: u64) -> Seq<u8> {
    spec_u64_to_le_bytes(x)
}

/// A length-prefixed byte string: its length as a word, then its bytes.
pub open spec fn enc_bytes(s: Seq<u8>) -> Seq<u8> {
    enc_u64(s.len() as u64) + s
}

/// Append the encoding of one word.
pub fn push_u64(out: &mut Vec<u8>, x: u64)
    ensures
        final(out)@ == old(out)@ + enc_u64(x),
{
    let mut bs = u64_to_le_bytes(x);
    out.append(&mut bs);
}

/// Append one raw byte.
pub fn push_u8(out: &mut Vec<u8>, b: u8)
    ensures
        final(out)@ == old(out)@.push(b),
{
    out.push(b);
}

/// Tagged encoding of an optional word: absent is one zero byte, present is
/// a one byte followed by the word.
pub open spec fn enc_option(o: Option<u64>) -> Seq<u8> {
    match o {
        Option::None => seq![0u8],
        Option::Some(x) => seq![1u8] + enc_u64(x),
    }
}

/// Append the tagged encoding of an optional word.
pub fn push_option(out: &mut Vec<u8>, o: &Option<u64>)
    ensures
        final(out)@ == old(out)@ + enc_option(*o),
{
    match o {
        Option::None => {
            out.push(0u8);
            proof {
                assert(old(out)@ + enc_option(Option::<u64>::None) =~= old(out)@.push(0u8));
            }
        },
        Option::Some(x) => {
            out.push(1u8);
            push_u64(out, *x);
            proof {
                assert(old(out)@ + enc_option(Option::Some(*x)) =~= old(out)@.push(1u8) + enc_u64(
                    *x,
                ));
            }
        },
    }
}

/// Append a length-prefixed byte string.
pub fn push_bytes(out: &mut Vec<u8>, v: &Vec<u8>)
    ensures
        final(out)@ == old(out)@ + enc_bytes(v@),
{
    push_u64(out, v.len() as u64);
    let mut i: usize = 0;
    while i < v.len()
        invariant
            i <= v@.len(),
            out@ == old(out)@ + enc_u64(v@.len() as u64) + v@.take(i as int),
        decreases v@.len() - i,
    {
        out.push(v[i]);
        proof {
            assert(v@.take(i + 1) =~= v@.take(i as int).push(v@[i as int]));
        }
        i = i + 1;
    }
    proof {
        assert(v@.take(v@.len() as int) =~= v@);
        assert(old(out)@ + enc_u64(v@.len() as u64) + v@ =~= old(out)@ + enc_bytes(v@));
    }
}

} // verus!
