//! The content hash and the deterministic encoding.

use ledger_core::codec::hash_bytes;
use ledger_core::codec::push_bytes;
use ledger_core::codec::push_option;
use ledger_core::codec::push_u64;
use ledger_core::codec::HASH_SEED;

#[test]
fn hash_of_empty_is_the_seed() {
    assert_eq!(hash_bytes(&vec![]), HASH_SEED);
}

#[test]
fn hash_exact_values() {
    // seed folded once: (seed * 31 + 1) mod (2^64 - 59)
    assert_eq!(hash_bytes(&vec![1]), 8664053074555530580);
    assert_eq!(hash_bytes(&vec![1, 2]), 10331228279287726184);
}

#[test]
fn hash_depends_on_order_and_content() {
    assert_ne!(hash_bytes(&vec![1, 2]), hash_bytes(&vec![2, 1]));
    assert_ne!(hash_bytes(&vec![0]), hash_bytes(&vec![]));
}

#[test]
fn word_encoding_is_little_endian() {
    let mut out = Vec::new();
    push_u64(&mut out, 0x0102030405060708);
    assert_eq!(out, vec![8, 7, 6, 5, 4, 3, 2, 1]);
}

#[test]
fn byte_string_encoding_is_length_prefixed() {
    let mut out = Vec::new();
    push_bytes(&mut out, &vec![9, 9]);
    assert_eq!(out, vec![2, 0, 0, 0, 0, 0, 0, 0, 9, 9]);
}

#[test]
fn option_encoding_is_tagged() {
    let mut absent = Vec::new();
    push_option(&mut absent, &None);
    assert_eq!(absent, vec![0]);
    let mut present = Vec::new();
    push_option(&mut present, &Some(5));
    assert_eq!(present, vec![1, 5, 0, 0, 0, 0, 0, 0, 0]);
}
