//! A per-agent source chain: an append-only list of headers, each naming
//! its predecessor's hash, together with the temporary countersigning lock.
//!
//! The strict-ordering compare-and-swap append — accept a write only if the
//! current head hash equals the expected one — is the single
//! synchronization primitive the countersigning commit depends on. It is
//! deliberately independent of the in-process lock: the lock keeps the
//! local process from writing unrelated headers during a session, the
//! compare-and-swap guards against everything else.

use vstd::prelude::*;
use crate::codec::enc_option;
use crate::codec::enc_u64;
use crate::codec::hash_bytes;
use crate::codec::hash_bytes_spec;
use crate::codec::push_option;
use crate::codec::push_u64;

verus! {

/// Head hash of a chain with no headers yet.
pub const GENESIS_HASH: u64 = 0;

/// One header of an agent's chain.
#[derive(Clone, Copy, PartialEq, Eq, Structural, Debug)]
pub struct ChainHeader {
    /// Position on the chain, counted from zero.
    pub seq: u64,
    /// Hash of the previous header, or [`GENESIS_HASH`] for the first.
    pub prev_hash: u64,
    /// Hash of the entry this header commits.
    pub entry_hash: u64,
    /// For a countersigned entry, the request-identity hash of its session.
    pub countersigned_session: Option<u64>,
    /// Content hash of this header.
    pub hash: u64,
}

/// The byte encoding a header is hashed over.
pub open spec fn enc_header(seq: u64, prev_hash: u64, entry_hash: u64, cs: Option<u64>) -> Seq<
    u8,
> {
    enc_u64(seq) + enc_u64(prev_hash) + enc_u64(entry_hash) + enc_option(cs)
}

/// The content hash of a header.
pub open spec fn header_hash_spec(seq: u64, prev_hash: u64, entry_hash: u64, cs: Option<u64>) -> u64 {
    hash_bytes_spec(enc_header(seq, prev_hash, entry_hash, cs))
}

/// Compute the content hash of a header.
fn header_hash(seq: u64, prev_hash: u64, entry_hash: u64, cs: &Option<u64>) -> (h: u64)
    ensures
        h == header_hash_spec(seq, prev_hash, entry_hash, *cs),
{
    let mut bytes: Vec<u8> = Vec::new();
    push_u64(&mut bytes, seq);
    push_u64(&mut bytes, prev_hash);
    push_u64(&mut bytes, entry_hash);
    push_option(&mut bytes, cs);
    proof {
        assert(bytes@ =~= enc_header(seq, prev_hash, entry_hash, *cs));
    }
    hash_bytes(&bytes)
}

/// A temporary lock on a chain, taken when a countersigning request is
/// accepted and held until the session resolves.
#[derive(Clone, Copy, PartialEq, Eq, Structural, Debug)]
pub struct ChainLock {
    /// Request-identity hash of the session the lock belongs to.
    pub subject: u64,
    /// The session window's end: past it the lock is dead.
    pub expires_at_ms: u64,
}

/// Why a chain write was refused.
#[derive(Clone, Copy, PartialEq, Eq, Structural, Debug)]
pub enum ChainError {
    /// The head hash no longer matches the expected position: another
    /// header was appended in between.
    HeadMoved,
    /// A live countersigning lock forbids unrelated writes.
    ChainLocked,
}

/// An agent's source chain together with its countersigning lock.
#[derive(Debug)]
pub struct Chain {
    pub headers: Vec<ChainHeader>,
    pub lock: Option<ChainLock>,
}

/// Head hash of a header sequence: the last header's hash, or the genesis
/// marker.
pub open spec fn head_hash_of(s: Seq<ChainHeader>) -> u64 {
    if s.len() == 0 {
        GENESIS_HASH
    } else {
        s.last().hash
    }
}

/// Well-formed chain: headers stand at their sequence positions, each names
/// its predecessor's hash, and each hash is the content hash of the header.
pub open spec fn chain_wf(s: Seq<ChainHeader>) -> bool {
    forall|i: int|
        0 <= i < s.len() ==> {
            &&& (#[trigger] s[i]).seq == i
            &&& s[i].prev_hash == head_hash_of(s.take(i))
            &&& s[i].hash == header_hash_spec(
                s[i].seq,
                s[i].prev_hash,
                s[i].entry_hash,
                s[i].countersigned_session,
            )
        }
}

/// The lock standing at `now_ms`, if any: a lock past its expiry is dead.
pub open spec fn is_locked_at(c: Chain, now_ms: u64) -> bool {
    match c.lock {
        Option::Some(l) => now_ms < l.expires_at_ms,
        Option::None => false,
    }
}

impl Chain {
    /// A fresh chain: no headers, no lock.
    pub fn new() -> (c: Chain)
        ensures
            c.headers@.len() == 0,
            c.lock is None,
            chain_wf(c.headers@),
    {
        Chain { headers: Vec::new(), lock: None }
    }

    /// The current head hash.
    pub fn head_hash(&self) -> (h: u64)
        ensures
            h == head_hash_of(self.headers@),
    {
        if self.headers.len() == 0 {
            GENESIS_HASH
        } else {
            self.headers[self.headers.len() - 1].hash
        }
    }

    /// The strict-ordering compare-and-swap append: the write is accepted
    /// exactly when no other header was appended since the expected
    /// position, and then the new header is the immediate next one on the
    /// chain. On refusal the chain is untouched — never silently rewritten
    /// or reordered. The lock is not consulted: this is the synchronization
    /// primitive itself.
    pub fn append_strict(
        &mut self,
        expected_head: u64,
        entry_hash: u64,
        countersigned_session: Option<u64>,
    ) -> (r: Result<u64, ChainError>)
        requires
            chain_wf(old(self).headers@),
            old(self).headers@.len() < u64::MAX,
        ensures
            chain_wf(final(self).headers@),
            final(self).lock == old(self).lock,
            r is Ok <==> expected_head == head_hash_of(old(self).headers@),
            r is Err ==> r == Result::<u64, ChainError>::Err(ChainError::HeadMoved)
                && *final(self) == *old(self),
            r matches Ok(h) ==> {
                &&& final(self).headers@ == old(self).headers@.push(
                    (ChainHeader {
                        seq: old(self).headers@.len() as u64,
                        prev_hash: expected_head,
                        entry_hash,
                        countersigned_session,
                        hash: h,
                    }),
                )
                &&& h == header_hash_spec(
                    old(self).headers@.len() as u64,
                    expected_head,
                    entry_hash,
                    countersigned_session,
                )
            },
    {
        let head = self.head_hash();
        if expected_head != head {
            return Err(ChainError::HeadMoved);
        }
        let seq = self.headers.len() as u64;
        let h = header_hash(seq, head, entry_hash, &countersigned_session);
        let header = ChainHeader {
            seq,
            prev_hash: head,
            entry_hash,
            countersigned_session,
            hash: h,
        };
        self.headers.push(header);
        proof {
            assert forall|i: int| 0 <= i < self.headers@.len() implies {
                &&& (#[trigger] self.headers@[i]).seq == i
                &&& self.headers@[i].prev_hash == head_hash_of(self.headers@.take(i))
                &&& self.headers@[i].hash == header_hash_spec(
                    self.headers@[i].seq,
                    self.headers@[i].prev_hash,
                    self.headers@[i].entry_hash,
                    self.headers@[i].countersigned_session,
                )
            } by {
                if i < old(self).headers@.len() {
                    assert(self.headers@[i] == old(self).headers@[i]);
                    assert(self.headers@.take(i) =~= old(self).headers@.take(i));
                } else {
                    assert(self.headers@.take(i) =~= old(self).headers@);
                }
            }
        }
        Ok(h)
    }

    /// The ordinary (non-countersigned) write path: refused while a live
    /// countersigning lock stands, otherwise the entry is appended at the
    /// current head.
    pub fn append_entry(&mut self, entry_hash: u64, now_ms: u64) -> (r: Result<u64, ChainError>)
        requires
            chain_wf(old(self).headers@),
            old(self).headers@.len() < u64::MAX,
        ensures
            chain_wf(final(self).headers@),
            final(self).lock == old(self).lock,
            r is Ok <==> !is_locked_at(*old(self), now_ms),
            r is Err ==> r == Result::<u64, ChainError>::Err(ChainError::ChainLocked)
                && *final(self) == *old(self),
            r matches Ok(h) ==> final(self).headers@ == old(self).headers@.push(
                (ChainHeader {
                    seq: old(self).headers@.len() as u64,
                    prev_hash: head_hash_of(old(self).headers@),
                    entry_hash,
                    countersigned_session: Option::None,
                    hash: h,
                }),
            ),
    {
        let locked = match &self.lock {
            Some(l) => now_ms < l.expires_at_ms,
            None => false,
        };
        if locked {
            return Err(ChainError::ChainLocked);
        }
        let head = self.head_hash();
        self.append_strict(head, entry_hash, None)
    }

    /// Release the lock of an expired session, so ordinary writes resume.
    /// A live lock stays.
    pub fn release_expired_lock(&mut self, now_ms: u64)
        ensures
            final(self).headers == old(self).headers,
            final(self).lock == (if is_locked_at(*old(self), now_ms) || old(self).lock is None {
                old(self).lock
            } else {
                Option::<ChainLock>::None
            }),
    {
        let expired = match &self.lock {
            Some(l) => now_ms >= l.expires_at_ms,
            None => false,
        };
        if expired {
            self.lock = None;
        }
    }
}

} // verus!
