//! The countersigning negotiation: preflight request and responses, the
//! canonical session record, and the atomic commit against each
//! participant's own chain.
//!
//! A session's identity is the content hash of its preflight request's
//! immutable fields; two requests hashing equal are the same negotiation.
//! Responses are canonicalized into a deterministic order before the
//! session record is encoded or hashed, so every participant derives a
//! byte-identical record whatever order the responses arrived in.
//!
//! Producing and checking signatures, delivering messages, and capability
//! checks are external collaborators; what is modelled here is everything
//! the protocol itself decides: identity hashing, canonicalization, the
//! commit conditions, and the chain lock.

use vstd::prelude::*;
use vstd::relations::sorted_by;
use vstd::relations::total_ordering;
use vstd::seq_lib::lemma_sorted_unique;
use crate::chain::Chain;
use crate::chain::ChainLock;
use crate::chain::head_hash_of;
use crate::chain::chain_wf;
use crate::chain::is_locked_at;
use crate::codec::enc_bytes;
use crate::codec::enc_option;
use crate::codec::enc_u64;
use crate::codec::hash_bytes;
use crate::codec::hash_bytes_spec;
use crate::codec::push_bytes;
use crate::codec::push_option;
use crate::codec::push_u64;
use crate::codec::push_u8;

verus! {

/// One (agent, roles) entry of the ordered participant list.
#[derive(Clone, Debug)]
pub struct Participant {
    /// The agent's public key.
    pub agent: u64,
    /// The roles the agent plays in the session.
    pub roles: Vec<u8>,
}

/// The session's time window `[start_ms, end_ms)`.
#[derive(Clone, Copy, PartialEq, Eq, Structural, Debug)]
pub struct SessionTimes {
    pub start_ms: u64,
    pub end_ms: u64,
}

/// Closed tagged description of the header operation under negotiation.
/// It is exhaustively matchable so the identity hash is stable and
/// verification covers every variant.
#[derive(Clone, Copy, PartialEq, Eq, Structural, Debug)]
pub enum HeaderBase {
    /// Agree to create an entry of the given application type.
    Create { entry_type: u8 },
    /// Agree to update an existing entry.
    Update { original_header_hash: u64, original_entry_hash: u64 },
    /// Agree to delete an existing entry.
    Delete { removed_header_hash: u64, removed_entry_hash: u64 },
}

/// Why a preflight request or a response set was rejected. Protocol
/// violations are rejected outright, never merged: the protocol requires
/// exact equality, not best-effort reconciliation.
#[derive(Clone, Copy, PartialEq, Eq, Structural, Debug)]
pub enum CounterSigningError {
    /// Fewer than two signing agents were named.
    AgentsLength,
    /// The same agent was named twice.
    DuplicateAgents,
    /// The window ends before it starts, or its end does not fit.
    InvalidSessionTimes,
    /// A response references a different request hash.
    ResponseHashMismatch,
    /// The response count differs from the participant count.
    ResponseCountMismatch,
    /// A response came from an agent that is not a participant.
    UnknownResponseAgent,
    /// Two responses came from the same agent.
    DuplicateResponseAgent,
}

/// Initiator-issued, immutable description of the proposed session. The
/// request-identity hash is computed over exactly these fields.
#[derive(Clone, Debug)]
pub struct PreflightRequest {
    /// Content hash of the entry to be agreed on.
    pub app_entry_hash: u64,
    /// The ordered (agent, roles) participants.
    pub signing_agents: Vec<Participant>,
    /// Optional reference to a prior session this one continues.
    pub preflight_prior_hash: Option<u64>,
    /// The session window.
    pub session_times: SessionTimes,
    /// Which header operation is being agreed to.
    pub header_base: HeaderBase,
    /// Opaque caller-defined bytes: hashed, never interpreted.
    pub preflight_bytes: Vec<u8>,
}

/// One participant's acceptance: its signature over the request hash and
/// its current chain position, asserting it will author nothing else until
/// the session resolves.
#[derive(Clone, Copy, PartialEq, Eq, Structural, Debug)]
pub struct PreflightResponse {
    /// The responding agent's public key.
    pub agent: u64,
    /// The request-identity hash the response answers.
    pub request_hash: u64,
    /// Hash of the agent's chain head at acceptance time.
    pub chain_head_hash: u64,
    /// Length of the agent's chain at acceptance time.
    pub chain_head_seq: u64,
    /// Signature over (request hash, chain position), produced by the
    /// agent's keypair — an external collaborator; carried opaquely.
    pub signature: u64,
}

/// No two participants share an agent key.
pub open spec fn distinct_agents(ps: Seq<Participant>) -> bool {
    forall|i: int, j: int|
        0 <= i < j < ps.len() ==> (#[trigger] ps[i]).agent != (#[trigger] ps[j]).agent
}

/// The agent key occurs in the participant list.
pub open spec fn is_participant(ps: Seq<Participant>, agent: u64) -> bool {
    exists|i: int| 0 <= i < ps.len() && (#[trigger] ps[i]).agent == agent
}

/// Encoding of one participant.
pub open spec fn enc_participant(p: Participant) -> Seq<u8> {
    enc_u64(p.agent) + enc_bytes(p.roles@)
}

/// Encoding of a participant list, in list order.
pub open spec fn enc_participants(ps: Seq<Participant>) -> Seq<u8>
    decreases ps.len(),
{
    if ps.len() == 0 {
        Seq::empty()
    } else {
        enc_participants(ps.drop_last()) + enc_participant(ps.last())
    }
}

/// Encoding of the header-operation tag.
pub open spec fn enc_header_base(h: HeaderBase) -> Seq<u8> {
    match h {
        HeaderBase::Create { entry_type } => seq![1u8, entry_type],
        HeaderBase::Update { original_header_hash, original_entry_hash } => seq![2u8] + enc_u64(
            original_header_hash,
        ) + enc_u64(original_entry_hash),
        HeaderBase::Delete { removed_header_hash, removed_entry_hash } => seq![3u8] + enc_u64(
            removed_header_hash,
        ) + enc_u64(removed_entry_hash),
    }
}

/// The bytes the request-identity hash is computed over: exactly the
/// request's immutable fields, in wire order.
pub open spec fn enc_request(r: PreflightRequest) -> Seq<u8> {
    enc_u64(r.app_entry_hash) + enc_u64(r.signing_agents@.len() as u64) + enc_participants(
        r.signing_agents@,
    ) + enc_option(r.preflight_prior_hash) + enc_u64(r.session_times.start_ms) + enc_u64(
        r.session_times.end_ms,
    ) + enc_header_base(r.header_base) + enc_bytes(r.preflight_bytes@)
}

/// The request-identity hash: two requests hash equal exactly when they
/// were encoded from equal field values, so any field difference makes a
/// distinct negotiation.
pub open spec fn request_hash_spec(r: PreflightRequest) -> u64 {
    hash_bytes_spec(enc_request(r))
}

/// Build the session window starting now and lasting `duration_ms`.
pub fn session_times_from_millis(now_ms: u64, duration_ms: u64) -> (r: Result<
    SessionTimes,
    CounterSigningError,
>)
    ensures
        r is Ok <==> now_ms + duration_ms <= u64::MAX,
        r matches Ok(t) ==> t == (SessionTimes {
            start_ms: now_ms,
            end_ms: (now_ms + duration_ms) as u64,
        }),
        r is Err ==> r == Result::<SessionTimes, CounterSigningError>::Err(
            CounterSigningError::InvalidSessionTimes,
        ),
{
    if duration_ms <= u64::MAX - now_ms {
        Ok(SessionTimes { start_ms: now_ms, end_ms: now_ms + duration_ms })
    } else {
        Err(CounterSigningError::InvalidSessionTimes)
    }
}

/// Whether the participant list names an agent key twice.
fn agents_distinct_exec(ps: &Vec<Participant>) -> (r: bool)
    ensures
        r == distinct_agents(ps@),
{
    let mut i: usize = 0;
    while i < ps.len()
        invariant
            i <= ps@.len(),
            forall|a: int, b: int|
                0 <= a < b < ps@.len() && a < i ==> (#[trigger] ps@[a]).agent != (
                #[trigger] ps@[b]).agent,
        decreases ps@.len() - i,
    {
        let mut j: usize = i + 1;
        while j < ps.len()
            invariant
                i < j || j == i + 1,
                i < ps@.len(),
                j <= ps@.len(),
                j >= i + 1,
                forall|b: int| i < b < j ==> (#[trigger] ps@[b]).agent != ps@[i as int].agent,
            decreases ps@.len() - j,
        {
            if ps[j].agent == ps[i].agent {
                return false;
            }
            j = j + 1;
        }
        i = i + 1;
    }
    true
}

impl PreflightRequest {
    /// Validate and assemble a preflight request: at least two distinct
    /// signing agents and a window that does not end before it starts.
    /// On success the request holds exactly the given fields.
    pub fn try_new(
        app_entry_hash: u64,
        signing_agents: Vec<Participant>,
        preflight_prior_hash: Option<u64>,
        session_times: SessionTimes,
        header_base: HeaderBase,
        preflight_bytes: Vec<u8>,
    ) -> (r: Result<PreflightRequest, CounterSigningError>)
        ensures
            r is Ok <==> signing_agents@.len() >= 2 && distinct_agents(signing_agents@)
                && session_times.start_ms <= session_times.end_ms,
            r matches Ok(req) ==> {
                &&& req.app_entry_hash == app_entry_hash
                &&& req.signing_agents == signing_agents
                &&& req.preflight_prior_hash == preflight_prior_hash
                &&& req.session_times == session_times
                &&& req.header_base == header_base
                &&& req.preflight_bytes == preflight_bytes
            },
            signing_agents@.len() < 2 ==> r == Result::<PreflightRequest, CounterSigningError>::Err(
                CounterSigningError::AgentsLength,
            ),
            signing_agents@.len() >= 2 && !distinct_agents(signing_agents@) ==> r == Result::<
                PreflightRequest,
                CounterSigningError,
            >::Err(CounterSigningError::DuplicateAgents),
            signing_agents@.len() >= 2 && distinct_agents(signing_agents@)
                && session_times.start_ms > session_times.end_ms ==> r == Result::<
                PreflightRequest,
                CounterSigningError,
            >::Err(CounterSigningError::InvalidSessionTimes),
    {
        if signing_agents.len() < 2 {
            return Err(CounterSigningError::AgentsLength);
        }
        if !agents_distinct_exec(&signing_agents) {
            return Err(CounterSigningError::DuplicateAgents);
        }
        if session_times.start_ms > session_times.end_ms {
            return Err(CounterSigningError::InvalidSessionTimes);
        }
        Ok(
            PreflightRequest {
                app_entry_hash,
                signing_agents,
                preflight_prior_hash,
                session_times,
                header_base,
                preflight_bytes,
            },
        )
    }
}

/// Encode a preflight request into its hash input bytes.
pub fn encode_preflight_request(r: &PreflightRequest) -> (out: Vec<u8>)
    ensures
        out@ == enc_request(*r),
{
    let mut out: Vec<u8> = Vec::new();
    push_u64(&mut out, r.app_entry_hash);
    push_u64(&mut out, r.signing_agents.len() as u64);
    let ghost prefix = out@;
    let mut i: usize = 0;
    while i < r.signing_agents.len()
        invariant
            i <= r.signing_agents@.len(),
            out@ == prefix + enc_participants(r.signing_agents@.take(i as int)),
        decreases r.signing_agents@.len() - i,
    {
        push_u64(&mut out, r.signing_agents[i].agent);
        push_bytes(&mut out, &r.signing_agents[i].roles);
        proof {
            let t1 = r.signing_agents@.take(i + 1);
            assert(t1.drop_last() =~= r.signing_agents@.take(i as int));
            assert(t1.last() == r.signing_agents@[i as int]);
            assert(out@ =~= prefix + enc_participants(t1));
        }
        i = i + 1;
    }
    proof {
        assert(r.signing_agents@.take(r.signing_agents@.len() as int) =~= r.signing_agents@);
    }
    push_option(&mut out, &r.preflight_prior_hash);
    push_u64(&mut out, r.session_times.start_ms);
    push_u64(&mut out, r.session_times.end_ms);
    match &r.header_base {
        HeaderBase::Create { entry_type } => {
            push_u8(&mut out, 1u8);
            push_u8(&mut out, *entry_type);
        },
        HeaderBase::Update { original_header_hash, original_entry_hash } => {
            push_u8(&mut out, 2u8);
            push_u64(&mut out, *original_header_hash);
            push_u64(&mut out, *original_entry_hash);
        },
        HeaderBase::Delete { removed_header_hash, removed_entry_hash } => {
            push_u8(&mut out, 3u8);
            push_u64(&mut out, *removed_header_hash);
            push_u64(&mut out, *removed_entry_hash);
        },
    }
    push_bytes(&mut out, &r.preflight_bytes);
    proof {
        assert(out@ =~= enc_request(*r));
    }
    out
}

/// Compute the request-identity hash of a preflight request.
pub fn preflight_request_hash(r: &PreflightRequest) -> (h: u64)
    ensures
        h == request_hash_spec(*r),
{
    let bytes = encode_preflight_request(r);
    hash_bytes(&bytes)
}

/// The canonical order of responses: by agent key, ties broken by every
/// remaining field, so the relation is a total order on response values.
pub open spec fn resp_le(a: PreflightResponse, b: PreflightResponse) -> bool {
    if a.agent != b.agent {
        a.agent < b.agent
    } else if a.request_hash != b.request_hash {
        a.request_hash < b.request_hash
    } else if a.chain_head_hash != b.chain_head_hash {
        a.chain_head_hash < b.chain_head_hash
    } else if a.chain_head_seq != b.chain_head_seq {
        a.chain_head_seq < b.chain_head_seq
    } else {
        a.signature <= b.signature
    }
}

/// The canonical order as a relation value.
pub open spec fn resp_order() -> spec_fn(PreflightResponse, PreflightResponse) -> bool {
    |a: PreflightResponse, b: PreflightResponse| resp_le(a, b)
}

/// The canonical order is a total order.
pub proof fn lemma_resp_order_total()
    ensures
        total_ordering(resp_order()),
{
    let leq = resp_order();
    assert forall|a: PreflightResponse, b: PreflightResponse| #[trigger]
        leq(a, b) && leq(b, a) implies a == b by {
        assert(resp_le(a, b) && resp_le(b, a));
    }
    assert forall|a: PreflightResponse, b: PreflightResponse, c: PreflightResponse| #[trigger]
        leq(a, b) && #[trigger] leq(b, c) implies leq(a, c) by {
        assert(resp_le(a, b) && resp_le(b, c));
        assert(resp_le(a, c));
    }
    assert forall|a: PreflightResponse, b: PreflightResponse| true implies #[trigger] leq(a, b)
        || #[trigger] leq(b, a) by {
        assert(resp_le(a, b) || resp_le(b, a));
    }
}

/// Exec comparison mirroring the canonical order.
fn resp_le_exec(a: &PreflightResponse, b: &PreflightResponse) -> (r: bool)
    ensures
        r == resp_le(*a, *b),
{
    if a.agent != b.agent {
        a.agent < b.agent
    } else if a.request_hash != b.request_hash {
        a.request_hash < b.request_hash
    } else if a.chain_head_hash != b.chain_head_hash {
        a.chain_head_hash < b.chain_head_hash
    } else if a.chain_head_seq != b.chain_head_seq {
        a.chain_head_seq < b.chain_head_seq
    } else {
        a.signature <= b.signature
    }
}

/// Sort responses into the canonical order (insertion sort). The result is
/// the one sorted arrangement of the given responses.
pub fn canonicalize_responses(responses: &Vec<PreflightResponse>) -> (out: Vec<PreflightResponse>)
    ensures
        out@ == responses@.sort_by(resp_order()),
        out@.to_multiset() == responses@.to_multiset(),
        sorted_by(out@, resp_order()),
{
    proof {
        lemma_resp_order_total();
        broadcast use vstd::seq_lib::group_to_multiset_ensures;
    }
    let mut out: Vec<PreflightResponse> = Vec::new();
    let mut i: usize = 0;
    while i < responses.len()
        invariant
            i <= responses@.len(),
            sorted_by(out@, resp_order()),
            out@.to_multiset() == responses@.take(i as int).to_multiset(),
        decreases responses@.len() - i,
    {
        let x = responses[i];
        let mut p: usize = 0;
        while p < out.len() && resp_le_exec(&out[p], &x)
            invariant
                p <= out@.len(),
                forall|m: int| 0 <= m < p ==> resp_le(#[trigger] out@[m], x),
            decreases out@.len() - p,
        {
            p = p + 1;
        }
        let ghost pre = out@;
        out.insert(p, x);
        proof {
            lemma_resp_order_total();
            broadcast use vstd::seq_lib::group_to_multiset_ensures;

            let leq = resp_order();
            assert(out@ == pre.insert(p as int, x));
            assert forall|a: int, b: int| 0 <= a < b < out@.len() implies #[trigger] leq(
                out@[a],
                out@[b],
            ) by {
                if a < p && b < p {
                    assert(out@[a] == pre[a] && out@[b] == pre[b]);
                } else if a < p && b == p {
                    assert(out@[a] == pre[a]);
                    assert(resp_le(pre[a], x));
                } else if a < p && b > p {
                    assert(out@[a] == pre[a] && out@[b] == pre[b - 1]);
                } else if a == p {
                    assert(out@[a] == x && out@[b] == pre[b - 1]);
                    if p < pre.len() {
                        assert(!resp_le(pre[p as int], x));
                        assert(resp_le(x, pre[p as int]));
                        if b - 1 > p {
                            assert(leq(pre[p as int], pre[b - 1]));
                        }
                    }
                } else {
                    assert(out@[a] == pre[a - 1] && out@[b] == pre[b - 1]);
                }
            }
            assert(responses@.take(i + 1) =~= responses@.take(i as int).push(
                responses@[i as int],
            ));
        }
        i = i + 1;
    }
    proof {
        assert(responses@.take(responses@.len() as int) =~= responses@);
        lemma_resp_order_total();
        responses@.lemma_sort_by_ensures(resp_order());
        lemma_sorted_unique(out@, responses@.sort_by(resp_order()), resp_order());
    }
    out
}

/// Canonical ordering is deterministic: any two arrival orders of one
/// response set canonicalize to the same sequence.
pub proof fn lemma_canonical_order_deterministic(
    a: Seq<PreflightResponse>,
    b: Seq<PreflightResponse>,
)
    requires
        a.to_multiset() == b.to_multiset(),
    ensures
        a.sort_by(resp_order()) == b.sort_by(resp_order()),
{
    lemma_resp_order_total();
    a.lemma_sort_by_ensures(resp_order());
    b.lemma_sort_by_ensures(resp_order());
    lemma_sorted_unique(a.sort_by(resp_order()), b.sort_by(resp_order()), resp_order());
}

/// No two responses share an agent key.
pub open spec fn distinct_response_agents(rs: Seq<PreflightResponse>) -> bool {
    forall|i: int, j: int|
        0 <= i < j < rs.len() ==> (#[trigger] rs[i]).agent != (#[trigger] rs[j]).agent
}

/// Every response references the given request hash.
pub open spec fn all_hashes_match(rs: Seq<PreflightResponse>, h: u64) -> bool {
    forall|i: int| 0 <= i < rs.len() ==> (#[trigger] rs[i]).request_hash == h
}

/// Every response comes from a listed participant.
pub open spec fn all_agents_known(ps: Seq<Participant>, rs: Seq<PreflightResponse>) -> bool {
    forall|i: int| 0 <= i < rs.len() ==> is_participant(ps, (#[trigger] rs[i]).agent)
}

/// The structural conditions under which a response set forms a valid
/// session for a request: one response per participant — the counts are
/// equal, every responder is a listed participant, and no agent responded
/// twice — and every response references the identical request hash.
pub open spec fn session_acceptable(req: PreflightRequest, rs: Seq<PreflightResponse>) -> bool {
    &&& rs.len() == req.signing_agents@.len()
    &&& all_hashes_match(rs, request_hash_spec(req))
    &&& all_agents_known(req.signing_agents@, rs)
    &&& distinct_response_agents(rs)
}

/// Whether the agent occurs in the participant list.
fn is_participant_exec(ps: &Vec<Participant>, agent: u64) -> (r: bool)
    ensures
        r == is_participant(ps@, agent),
{
    let mut i: usize = 0;
    while i < ps.len()
        invariant
            i <= ps@.len(),
            forall|m: int| 0 <= m < i ==> (#[trigger] ps@[m]).agent != agent,
        decreases ps@.len() - i,
    {
        if ps[i].agent == agent {
            return true;
        }
        i = i + 1;
    }
    false
}

/// Whether two responses share an agent key.
fn responses_distinct_exec(rs: &Vec<PreflightResponse>) -> (r: bool)
    ensures
        r == distinct_response_agents(rs@),
{
    let mut i: usize = 0;
    while i < rs.len()
        invariant
            i <= rs@.len(),
            forall|a: int, b: int|
                0 <= a < b < rs@.len() && a < i ==> (#[trigger] rs@[a]).agent != (
                #[trigger] rs@[b]).agent,
        decreases rs@.len() - i,
    {
        let mut j: usize = i + 1;
        while j < rs.len()
            invariant
                i < rs@.len(),
                j <= rs@.len(),
                j >= i + 1,
                forall|b: int| i < b < j ==> (#[trigger] rs@[b]).agent != rs@[i as int].agent,
            decreases rs@.len() - j,
        {
            if rs[j].agent == rs[i].agent {
                return false;
            }
            j = j + 1;
        }
        i = i + 1;
    }
    true
}

/// The immutable record of an agreed session: the request and the complete
/// response set in canonical order. Valid for commit only while its window
/// stands.
#[derive(Clone, Debug)]
pub struct CounterSigningSessionData {
    pub request: PreflightRequest,
    /// One response per participant, in canonical order.
    pub responses: Vec<PreflightResponse>,
}

/// Encoding of one response.
pub open spec fn enc_response(r: PreflightResponse) -> Seq<u8> {
    enc_u64(r.agent) + enc_u64(r.request_hash) + enc_u64(r.chain_head_hash) + enc_u64(
        r.chain_head_seq,
    ) + enc_u64(r.signature)
}

/// Encoding of a response list, in list order.
pub open spec fn enc_responses(rs: Seq<PreflightResponse>) -> Seq<u8>
    decreases rs.len(),
{
    if rs.len() == 0 {
        Seq::empty()
    } else {
        enc_responses(rs.drop_last()) + enc_response(rs.last())
    }
}

/// The byte representation of a session record.
pub open spec fn enc_session(req: PreflightRequest, rs: Seq<PreflightResponse>) -> Seq<u8> {
    enc_request(req) + enc_u64(rs.len() as u64) + enc_responses(rs)
}

/// The session hash: the content hash of the record's bytes.
pub open spec fn session_hash_spec(req: PreflightRequest, rs: Seq<PreflightResponse>) -> u64 {
    hash_bytes_spec(enc_session(req, rs))
}

/// The session record is independent of response arrival order: two
/// response sets equal as multisets canonicalize to records with identical
/// bytes and identical hash.
pub proof fn lemma_session_record_deterministic(
    req: PreflightRequest,
    a: Seq<PreflightResponse>,
    b: Seq<PreflightResponse>,
)
    requires
        a.to_multiset() == b.to_multiset(),
    ensures
        enc_session(req, a.sort_by(resp_order())) == enc_session(req, b.sort_by(resp_order())),
        session_hash_spec(req, a.sort_by(resp_order())) == session_hash_spec(
            req,
            b.sort_by(resp_order()),
        ),
{
    lemma_canonical_order_deterministic(a, b);
}

impl CounterSigningSessionData {
    /// Build the session record from a request and the responses it
    /// gathered, canonicalizing their order. Succeeds exactly when the set
    /// forms a valid session: counts equal, every response referencing this
    /// request's hash, every responder a distinct listed participant.
    /// A violating set is rejected outright, never merged.
    pub fn try_from_responses(request: PreflightRequest, responses: &Vec<PreflightResponse>) -> (r:
        Result<CounterSigningSessionData, CounterSigningError>)
        ensures
            r is Ok <==> session_acceptable(request, responses@),
            r matches Ok(sd) ==> sd.request == request && sd.responses@ == responses@.sort_by(
                resp_order(),
            ),
            responses@.len() != request.signing_agents@.len() ==> r == Result::<
                CounterSigningSessionData,
                CounterSigningError,
            >::Err(CounterSigningError::ResponseCountMismatch),
            responses@.len() == request.signing_agents@.len() && !all_hashes_match(
                responses@,
                request_hash_spec(request),
            ) ==> r == Result::<CounterSigningSessionData, CounterSigningError>::Err(
                CounterSigningError::ResponseHashMismatch,
            ),
            responses@.len() == request.signing_agents@.len() && all_hashes_match(
                responses@,
                request_hash_spec(request),
            ) && !all_agents_known(request.signing_agents@, responses@) ==> r == Result::<
                CounterSigningSessionData,
                CounterSigningError,
            >::Err(CounterSigningError::UnknownResponseAgent),
            responses@.len() == request.signing_agents@.len() && all_hashes_match(
                responses@,
                request_hash_spec(request),
            ) && all_agents_known(request.signing_agents@, responses@) && !distinct_response_agents(
                responses@,
            ) ==> r == Result::<CounterSigningSessionData, CounterSigningError>::Err(
                CounterSigningError::DuplicateResponseAgent,
            ),
    {
        let h = preflight_request_hash(&request);
        if responses.len() != request.signing_agents.len() {
            return Err(CounterSigningError::ResponseCountMismatch);
        }
        let mut i: usize = 0;
        while i < responses.len()
            invariant
                i <= responses@.len(),
                h == request_hash_spec(request),
                responses@.len() == request.signing_agents@.len(),
                forall|m: int| 0 <= m < i ==> (#[trigger] responses@[m]).request_hash == h,
            decreases responses@.len() - i,
        {
            if responses[i].request_hash != h {
                return Err(CounterSigningError::ResponseHashMismatch);
            }
            i = i + 1;
        }
        let mut i: usize = 0;
        while i < responses.len()
            invariant
                i <= responses@.len(),
                h == request_hash_spec(request),
                responses@.len() == request.signing_agents@.len(),
                all_hashes_match(responses@, request_hash_spec(request)),
                forall|m: int|
                    0 <= m < i ==> is_participant(
                        request.signing_agents@,
                        (#[trigger] responses@[m]).agent,
                    ),
            decreases responses@.len() - i,
        {
            if !is_participant_exec(&request.signing_agents, responses[i].agent) {
                return Err(CounterSigningError::UnknownResponseAgent);
            }
            i = i + 1;
        }
        if !responses_distinct_exec(responses) {
            return Err(CounterSigningError::DuplicateResponseAgent);
        }
        let sorted = canonicalize_responses(responses);
        Ok(CounterSigningSessionData { request, responses: sorted })
    }
}

/// Encode a session record into its byte representation.
pub fn encode_session_data(sd: &CounterSigningSessionData) -> (out: Vec<u8>)
    ensures
        out@ == enc_session(sd.request, sd.responses@),
{
    let mut out = encode_preflight_request(&sd.request);
    push_u64(&mut out, sd.responses.len() as u64);
    let ghost prefix = out@;
    let mut i: usize = 0;
    while i < sd.responses.len()
        invariant
            i <= sd.responses@.len(),
            out@ == prefix + enc_responses(sd.responses@.take(i as int)),
        decreases sd.responses@.len() - i,
    {
        push_u64(&mut out, sd.responses[i].agent);
        push_u64(&mut out, sd.responses[i].request_hash);
        push_u64(&mut out, sd.responses[i].chain_head_hash);
        push_u64(&mut out, sd.responses[i].chain_head_seq);
        push_u64(&mut out, sd.responses[i].signature);
        proof {
            let t1 = sd.responses@.take(i + 1);
            assert(t1.drop_last() =~= sd.responses@.take(i as int));
            assert(t1.last() == sd.responses@[i as int]);
            assert(out@ =~= prefix + enc_responses(t1));
        }
        i = i + 1;
    }
    proof {
        assert(sd.responses@.take(sd.responses@.len() as int) =~= sd.responses@);
        assert(out@ =~= enc_session(sd.request, sd.responses@));
    }
    out
}

/// Compute the session hash of a session record.
pub fn session_data_hash(sd: &CounterSigningSessionData) -> (h: u64)
    ensures
        h == session_hash_spec(sd.request, sd.responses@),
{
    let bytes = encode_session_data(sd);
    hash_bytes(&bytes)
}

/// Outcome of evaluating a preflight request locally.
#[derive(Clone, Copy, PartialEq, Eq, Structural, Debug)]
pub enum PreflightRequestAcceptance {
    /// The request was accepted; the enclosed response asserts the agent's
    /// current chain position and locks its chain.
    Accepted(PreflightResponse),
    /// The evaluating agent is not among the signing agents.
    UnacceptableAgentNotFound,
    /// The current time lies outside the session window.
    UnacceptableOutsideWindow,
    /// A live lock from another session already stands on the chain.
    UnacceptableChainLocked,
}

/// Evaluate a preflight request locally and, on acceptance, lock the chain
/// for the session until its window ends and answer with this agent's
/// response over the request hash and the current chain position. The
/// signature is produced by the agent's keypair, an external collaborator,
/// and carried opaquely.
pub fn accept_countersigning_preflight_request(
    chain: &mut Chain,
    request: &PreflightRequest,
    agent: u64,
    signature: u64,
    now_ms: u64,
) -> (r: PreflightRequestAcceptance)
    ensures
        r is Accepted <==> is_participant(request.signing_agents@, agent)
            && request.session_times.start_ms <= now_ms < request.session_times.end_ms
            && !is_locked_at(*old(chain), now_ms),
        !is_participant(request.signing_agents@, agent) ==> r
            == PreflightRequestAcceptance::UnacceptableAgentNotFound,
        is_participant(request.signing_agents@, agent) && !(request.session_times.start_ms <= now_ms
            < request.session_times.end_ms) ==> r
            == PreflightRequestAcceptance::UnacceptableOutsideWindow,
        is_participant(request.signing_agents@, agent) && request.session_times.start_ms <= now_ms
            < request.session_times.end_ms && is_locked_at(*old(chain), now_ms) ==> r
            == PreflightRequestAcceptance::UnacceptableChainLocked,
        r matches PreflightRequestAcceptance::Accepted(resp) ==> {
            &&& resp == (PreflightResponse {
                agent,
                request_hash: request_hash_spec(*request),
                chain_head_hash: head_hash_of(old(chain).headers@),
                chain_head_seq: old(chain).headers@.len() as u64,
                signature,
            })
            &&& final(chain).headers == old(chain).headers
            &&& final(chain).lock == Option::Some(
                (ChainLock {
                    subject: request_hash_spec(*request),
                    expires_at_ms: request.session_times.end_ms,
                }),
            )
        },
        !(r is Accepted) ==> *final(chain) == *old(chain),
{
    if !is_participant_exec(&request.signing_agents, agent) {
        return PreflightRequestAcceptance::UnacceptableAgentNotFound;
    }
    if !(request.session_times.start_ms <= now_ms && now_ms < request.session_times.end_ms) {
        return PreflightRequestAcceptance::UnacceptableOutsideWindow;
    }
    let locked = match &chain.lock {
        Some(l) => now_ms < l.expires_at_ms,
        None => false,
    };
    if locked {
        return PreflightRequestAcceptance::UnacceptableChainLocked;
    }
    let request_hash = preflight_request_hash(request);
    let chain_head_hash = chain.head_hash();
    let chain_head_seq = chain.headers.len() as u64;
    chain.lock = Some(
        ChainLock { subject: request_hash, expires_at_ms: request.session_times.end_ms },
    );
    PreflightRequestAcceptance::Accepted(
        PreflightResponse { agent, request_hash, chain_head_hash, chain_head_seq, signature },
    )
}

/// Why a countersigned commit failed. No partial application occurs: on
/// any failure the chain is exactly as it was.
#[derive(Clone, Copy, PartialEq, Eq, Structural, Debug)]
pub enum CommitError {
    /// The response set is not a valid session for the request.
    InvalidSession(CounterSigningError),
    /// Commit was attempted at or past the window's end.
    WindowClosed,
    /// The chain does not hold this session's lock.
    NotLockedForSession,
    /// The committing agent has no response in the set.
    NoResponseForAgent,
    /// The chain head moved since this agent's response: the strict
    /// ordering check refused the write.
    HeadMoved,
}

/// The set holds a response by this agent.
pub open spec fn has_response_for(rs: Seq<PreflightResponse>, agent: u64) -> bool {
    exists|j: int| 0 <= j < rs.len() && (#[trigger] rs[j]).agent == agent
}

/// The set holds a response by this agent naming this chain head.
pub open spec fn responds_at_head(rs: Seq<PreflightResponse>, agent: u64, head: u64) -> bool {
    exists|j: int|
        0 <= j < rs.len() && (#[trigger] rs[j]).agent == agent && rs[j].chain_head_hash == head
}

/// A valid session covers every participant: with as many responses as
/// participants, no agent responding twice, and every responder a listed
/// participant, a signed acceptance exists from every participant.
pub proof fn lemma_every_participant_responds(req: PreflightRequest, rs: Seq<PreflightResponse>)
    requires
        session_acceptable(req, rs),
        distinct_agents(req.signing_agents@),
    ensures
        forall|i: int|
            0 <= i < req.signing_agents@.len() ==> has_response_for(
                rs,
                (#[trigger] req.signing_agents@[i]).agent,
            ),
{
    broadcast use vstd::seq_lib::seq_to_set_is_finite;

    let ps = req.signing_agents@;
    let fa = |r: PreflightResponse| r.agent;
    let fp = |p: Participant| p.agent;
    let ra = rs.map_values(fa);
    let pa = ps.map_values(fp);
    assert(ra.no_duplicates()) by {
        assert forall|i: int, j: int| 0 <= i < j < ra.len() implies ra[i] != ra[j] by {
            assert(ra[i] == rs[i].agent && ra[j] == rs[j].agent);
        }
    }
    assert(pa.no_duplicates()) by {
        assert forall|i: int, j: int| 0 <= i < j < pa.len() implies pa[i] != pa[j] by {
            assert(pa[i] == ps[i].agent && pa[j] == ps[j].agent);
        }
    }
    ra.unique_seq_to_set();
    pa.unique_seq_to_set();
    assert(ra.to_set().subset_of(pa.to_set())) by {
        assert forall|x: u64| ra.to_set().contains(x) implies pa.to_set().contains(x) by {
            assert(ra.contains(x));
            let k = choose|k: int| 0 <= k < ra.len() && ra[k] == x;
            assert(rs[k].agent == x);
            assert(is_participant(ps, x));
            let m = choose|m: int| 0 <= m < ps.len() && (#[trigger] ps[m]).agent == x;
            assert(pa[m] == x);
            assert(pa.contains(x));
        }
    }
    vstd::set_lib::lemma_subset_equality(ra.to_set(), pa.to_set());
    assert forall|i: int| 0 <= i < ps.len() implies has_response_for(
        rs,
        (#[trigger] ps[i]).agent,
    ) by {
        assert(pa[i] == ps[i].agent);
        assert(pa.contains(pa[i]));
        assert(ra.to_set().contains(ps[i].agent));
        assert(ra.contains(ps[i].agent));
        let k = choose|k: int| 0 <= k < ra.len() && ra[k] == ps[i].agent;
        assert(rs[k].agent == ps[i].agent);
    }
}

/// This agent's view of the chain position their response promised, if any.
fn find_response_head(rs: &Vec<PreflightResponse>, agent: u64) -> (r: Option<u64>)
    ensures
        r is Some <==> has_response_for(rs@, agent),
        r matches Some(h) ==> exists|j: int|
            0 <= j < rs@.len() && (#[trigger] rs@[j]).agent == agent && rs@[j].chain_head_hash
                == h,
{
    let mut j: usize = 0;
    while j < rs.len()
        invariant
            j <= rs@.len(),
            forall|m: int| 0 <= m < j ==> (#[trigger] rs@[m]).agent != agent,
        decreases rs@.len() - j,
    {
        if rs[j].agent == agent {
            return Some(rs[j].chain_head_hash);
        }
        j = j + 1;
    }
    None
}

/// Commit the countersigned entry as the immediate next header on this
/// agent's own chain. Eligible only once the response set forms a valid
/// session, the window still stands, the chain holds this session's lock,
/// and — the strict-ordering check — the chain head still equals the
/// position this agent's response promised. On success the header wraps
/// the session record and the lock is released; on any failure the chain
/// is exactly as it was.
pub fn create_countersigned(
    chain: &mut Chain,
    request: PreflightRequest,
    responses: &Vec<PreflightResponse>,
    agent: u64,
    now_ms: u64,
) -> (r: Result<u64, CommitError>)
    requires
        chain_wf(old(chain).headers@),
        old(chain).headers@.len() < u64::MAX,
    ensures
        chain_wf(final(chain).headers@),
        r is Ok <==> session_acceptable(request, responses@) && now_ms
            < request.session_times.end_ms && old(chain).lock == Option::Some(
            (ChainLock {
                subject: request_hash_spec(request),
                expires_at_ms: request.session_times.end_ms,
            }),
        ) && responds_at_head(responses@, agent, head_hash_of(old(chain).headers@)),
        r is Err ==> *final(chain) == *old(chain),
        !session_acceptable(request, responses@) ==> (r matches Err(e) && e matches
            CommitError::InvalidSession(_)),
        session_acceptable(request, responses@) && now_ms >= request.session_times.end_ms ==> r
            == Result::<u64, CommitError>::Err(CommitError::WindowClosed),
        session_acceptable(request, responses@) && now_ms < request.session_times.end_ms && old(
            chain,
        ).lock != Option::Some(
            (ChainLock {
                subject: request_hash_spec(request),
                expires_at_ms: request.session_times.end_ms,
            }),
        ) ==> r == Result::<u64, CommitError>::Err(CommitError::NotLockedForSession),
        session_acceptable(request, responses@) && now_ms < request.session_times.end_ms && old(
            chain,
        ).lock == Option::Some(
            (ChainLock {
                subject: request_hash_spec(request),
                expires_at_ms: request.session_times.end_ms,
            }),
        ) && !has_response_for(responses@, agent) ==> r == Result::<u64, CommitError>::Err(
            CommitError::NoResponseForAgent,
        ),
        session_acceptable(request, responses@) && now_ms < request.session_times.end_ms && old(
            chain,
        ).lock == Option::Some(
            (ChainLock {
                subject: request_hash_spec(request),
                expires_at_ms: request.session_times.end_ms,
            }),
        ) && has_response_for(responses@, agent) && !responds_at_head(
            responses@,
            agent,
            head_hash_of(old(chain).headers@),
        ) ==> r == Result::<u64, CommitError>::Err(CommitError::HeadMoved),
        r matches Ok(h) ==> {
            &&& final(chain).headers@ == old(chain).headers@.push(
                (crate::chain::ChainHeader {
                    seq: old(chain).headers@.len() as u64,
                    prev_hash: head_hash_of(old(chain).headers@),
                    entry_hash: session_hash_spec(request, responses@.sort_by(resp_order())),
                    countersigned_session: Option::Some(request_hash_spec(request)),
                    hash: h,
                }),
            )
            &&& final(chain).lock is None
        },
{
    let req_hash = preflight_request_hash(&request);
    let end = request.session_times.end_ms;
    let session = match CounterSigningSessionData::try_from_responses(request, responses) {
        Ok(sd) => sd,
        Err(e) => {
            return Err(CommitError::InvalidSession(e));
        },
    };
    if now_ms >= end {
        return Err(CommitError::WindowClosed);
    }
    let lock_ok = match &chain.lock {
        Some(l) => l.subject == req_hash && l.expires_at_ms == end,
        None => false,
    };
    if !lock_ok {
        return Err(CommitError::NotLockedForSession);
    }
    let expected = match find_response_head(responses, agent) {
        Some(h) => h,
        None => {
            return Err(CommitError::NoResponseForAgent);
        },
    };
    let head = chain.head_hash();
    if expected != head {
        proof {
            // response agents are distinct, so this agent's one response
            // names `expected`; no response names the current head
            assert forall|j: int|
                0 <= j < responses@.len() && (#[trigger] responses@[j]).agent
                    == agent implies responses@[j].chain_head_hash == expected by {
                let j0 = choose|j0: int|
                    0 <= j0 < responses@.len() && (#[trigger] responses@[j0]).agent == agent
                        && responses@[j0].chain_head_hash == expected;
                if j != j0 {
                    assert(distinct_response_agents(responses@));
                }
            }
        }
        return Err(CommitError::HeadMoved);
    }
    let entry_hash = session_data_hash(&session);
    let appended = chain.append_strict(head, entry_hash, Some(req_hash));
    match appended {
        Ok(h) => {
            chain.lock = None;
            Ok(h)
        },
        Err(_) => {
            proof {
                assert(false);
            }
            Err(CommitError::HeadMoved)
        },
    }
}

} // verus!
