//! The countersigning protocol: request identity, canonicalization,
//! acceptance, and the commit conditions.

use ledger_core::chain::Chain;
use ledger_core::chain::ChainError;
use ledger_core::chain::GENESIS_HASH;
use ledger_core::countersign::accept_countersigning_preflight_request;
use ledger_core::countersign::create_countersigned;
use ledger_core::countersign::encode_session_data;
use ledger_core::countersign::preflight_request_hash;
use ledger_core::countersign::session_data_hash;
use ledger_core::countersign::session_times_from_millis;
use ledger_core::countersign::CommitError;
use ledger_core::countersign::CounterSigningError;
use ledger_core::countersign::CounterSigningSessionData;
use ledger_core::countersign::HeaderBase;
use ledger_core::countersign::Participant;
use ledger_core::countersign::PreflightRequest;
use ledger_core::countersign::PreflightRequestAcceptance;
use ledger_core::countersign::PreflightResponse;
use ledger_core::countersign::SessionTimes;

fn participant(agent: u64) -> Participant {
    Participant { agent, roles: vec![0] }
}

fn request_for(agents: &[u64]) -> PreflightRequest {
    let times = session_times_from_millis(0, 5000).unwrap();
    PreflightRequest::try_new(
        77,
        agents.iter().map(|a| participant(*a)).collect(),
        None,
        times,
        HeaderBase::Create { entry_type: 0 },
        vec![],
    )
    .unwrap()
}

fn response(req: &PreflightRequest, agent: u64, head: u64) -> PreflightResponse {
    PreflightResponse {
        agent,
        request_hash: preflight_request_hash(req),
        chain_head_hash: head,
        chain_head_seq: 0,
        signature: 1000 + agent,
    }
}

#[test]
fn session_times_start_now_and_last_the_duration() {
    let t = session_times_from_millis(100, 5000).unwrap();
    assert_eq!(t, SessionTimes { start_ms: 100, end_ms: 5100 });
    assert_eq!(
        session_times_from_millis(u64::MAX, 1).unwrap_err(),
        CounterSigningError::InvalidSessionTimes
    );
}

#[test]
fn try_new_rejects_malformed_requests() {
    let times = session_times_from_millis(0, 5000).unwrap();
    let one = PreflightRequest::try_new(
        77,
        vec![participant(1)],
        None,
        times,
        HeaderBase::Create { entry_type: 0 },
        vec![],
    );
    assert_eq!(one.unwrap_err(), CounterSigningError::AgentsLength);

    let dup = PreflightRequest::try_new(
        77,
        vec![participant(1), participant(1)],
        None,
        times,
        HeaderBase::Create { entry_type: 0 },
        vec![],
    );
    assert_eq!(dup.unwrap_err(), CounterSigningError::DuplicateAgents);

    let backwards = PreflightRequest::try_new(
        77,
        vec![participant(1), participant(2)],
        None,
        SessionTimes { start_ms: 10, end_ms: 5 },
        HeaderBase::Create { entry_type: 0 },
        vec![],
    );
    assert_eq!(backwards.unwrap_err(), CounterSigningError::InvalidSessionTimes);
}

#[test]
fn any_field_difference_makes_a_distinct_negotiation() {
    let a = request_for(&[1, 2]);
    let b = request_for(&[1, 2]);
    assert_eq!(preflight_request_hash(&a), preflight_request_hash(&b));

    let mut c = request_for(&[1, 2]);
    c.app_entry_hash = 78;
    assert_ne!(preflight_request_hash(&a), preflight_request_hash(&c));

    let mut d = request_for(&[1, 2]);
    d.header_base = HeaderBase::Update { original_header_hash: 1, original_entry_hash: 2 };
    assert_ne!(preflight_request_hash(&a), preflight_request_hash(&d));

    let mut e = request_for(&[1, 2]);
    e.preflight_bytes = vec![1];
    assert_ne!(preflight_request_hash(&a), preflight_request_hash(&e));
}

#[test]
fn all_permutations_give_identical_session_bytes_and_hash() {
    let req = request_for(&[1, 2, 3]);
    let r1 = response(&req, 1, 11);
    let r2 = response(&req, 2, 22);
    let r3 = response(&req, 3, 33);
    let perms: Vec<Vec<PreflightResponse>> = vec![
        vec![r1, r2, r3],
        vec![r1, r3, r2],
        vec![r2, r1, r3],
        vec![r2, r3, r1],
        vec![r3, r1, r2],
        vec![r3, r2, r1],
    ];
    let mut bytes: Vec<Vec<u8>> = Vec::new();
    let mut hashes: Vec<u64> = Vec::new();
    for p in &perms {
        let sd = CounterSigningSessionData::try_from_responses(req.clone(), p).unwrap();
        bytes.push(encode_session_data(&sd));
        hashes.push(session_data_hash(&sd));
    }
    for i in 1..bytes.len() {
        assert_eq!(bytes[0], bytes[i]);
        assert_eq!(hashes[0], hashes[i]);
    }
}

#[test]
fn response_set_violations_are_rejected_outright() {
    let req = request_for(&[1, 2]);
    let r1 = response(&req, 1, 11);
    let r2 = response(&req, 2, 22);

    let short = CounterSigningSessionData::try_from_responses(req.clone(), &vec![r1]);
    assert_eq!(short.unwrap_err(), CounterSigningError::ResponseCountMismatch);

    let mut tampered = r2;
    tampered.request_hash ^= 1;
    let mismatch =
        CounterSigningSessionData::try_from_responses(req.clone(), &vec![r1, tampered]);
    assert_eq!(mismatch.unwrap_err(), CounterSigningError::ResponseHashMismatch);

    let stranger = response(&req, 9, 99);
    let unknown =
        CounterSigningSessionData::try_from_responses(req.clone(), &vec![r1, stranger]);
    assert_eq!(unknown.unwrap_err(), CounterSigningError::UnknownResponseAgent);

    let twice = CounterSigningSessionData::try_from_responses(req.clone(), &vec![r1, r1]);
    assert_eq!(twice.unwrap_err(), CounterSigningError::DuplicateResponseAgent);
}

#[test]
fn acceptance_checks_participant_window_and_lock() {
    let req = request_for(&[1, 2]);
    let mut chain = Chain::new();
    assert_eq!(
        accept_countersigning_preflight_request(&mut chain, &req, 9, 500, 100),
        PreflightRequestAcceptance::UnacceptableAgentNotFound
    );
    assert_eq!(
        accept_countersigning_preflight_request(&mut chain, &req, 1, 500, 5000),
        PreflightRequestAcceptance::UnacceptableOutsideWindow
    );
    let accepted = accept_countersigning_preflight_request(&mut chain, &req, 1, 500, 100);
    match accepted {
        PreflightRequestAcceptance::Accepted(resp) => {
            assert_eq!(resp.agent, 1);
            assert_eq!(resp.request_hash, preflight_request_hash(&req));
            assert_eq!(resp.chain_head_hash, GENESIS_HASH);
            assert_eq!(resp.chain_head_seq, 0);
            assert_eq!(resp.signature, 500);
        }
        other => panic!("expected acceptance, got {:?}", other),
    }
    // the chain is now locked until the session resolves
    assert!(chain.lock.is_some());
    assert_eq!(
        accept_countersigning_preflight_request(&mut chain, &req, 1, 500, 100),
        PreflightRequestAcceptance::UnacceptableChainLocked
    );
    // and ordinary writes are refused while the lock is live
    assert_eq!(chain.append_entry(123, 100).unwrap_err(), ChainError::ChainLocked);
}

#[test]
fn commit_succeeds_only_under_all_conditions() {
    let req = request_for(&[1, 2]);
    let mut chain = Chain::new();
    let resp_mine = match accept_countersigning_preflight_request(&mut chain, &req, 1, 500, 100)
    {
        PreflightRequestAcceptance::Accepted(r) => r,
        other => panic!("expected acceptance, got {:?}", other),
    };
    let resp_other = response(&req, 2, 22);
    let responses = vec![resp_mine, resp_other];

    // window over: blocked
    let late = create_countersigned(&mut chain, req.clone(), &responses, 1, 5000);
    assert_eq!(late.unwrap_err(), CommitError::WindowClosed);
    assert!(chain.headers.is_empty());

    // a response short: blocked
    let short = create_countersigned(&mut chain, req.clone(), &vec![resp_mine], 1, 1000);
    assert_eq!(
        short.unwrap_err(),
        CommitError::InvalidSession(CounterSigningError::ResponseCountMismatch)
    );

    // all conditions met: the countersigned entry is the immediate next header
    let h = create_countersigned(&mut chain, req.clone(), &responses, 1, 1000).unwrap();
    assert_eq!(chain.headers.len(), 1);
    let header = &chain.headers[0];
    assert_eq!(header.hash, h);
    assert_eq!(header.seq, 0);
    assert_eq!(header.prev_hash, GENESIS_HASH);
    assert_eq!(header.countersigned_session, Some(preflight_request_hash(&req)));
    // the session is resolved: the lock is gone and ordinary writes resume
    assert!(chain.lock.is_none());
    assert!(chain.append_entry(123, 1100).is_ok());
}

#[test]
fn commit_without_lock_is_refused() {
    let req = request_for(&[1, 2]);
    let responses = vec![response(&req, 1, GENESIS_HASH), response(&req, 2, 22)];
    let mut chain = Chain::new();
    let r = create_countersigned(&mut chain, req, &responses, 1, 1000);
    assert_eq!(r.unwrap_err(), CommitError::NotLockedForSession);
    assert!(chain.headers.is_empty());
}

#[test]
fn moved_head_fails_commit_and_chain_keeps_the_new_head() {
    let req = request_for(&[1, 2]);
    let mut chain = Chain::new();
    let resp_mine = match accept_countersigning_preflight_request(&mut chain, &req, 1, 500, 100)
    {
        PreflightRequestAcceptance::Accepted(r) => r,
        other => panic!("expected acceptance, got {:?}", other),
    };
    let responses = vec![resp_mine, response(&req, 2, 22)];

    // another device appends behind the lock's back: the head moves from
    // the locked position to a new one
    let moved = chain.append_strict(GENESIS_HASH, 555, None).unwrap();
    assert_eq!(chain.headers.len(), 1);

    // the strict-ordering check refuses the commit ...
    let r = create_countersigned(&mut chain, req, &responses, 1, 1000);
    assert_eq!(r.unwrap_err(), CommitError::HeadMoved);
    // ... and the chain stands at the moved head, never rewritten
    assert_eq!(chain.headers.len(), 1);
    assert_eq!(chain.head_hash(), moved);
    assert_eq!(chain.headers[0].entry_hash, 555);
    assert!(chain.lock.is_some());
}

#[test]
fn expired_window_releases_the_lock() {
    let req = request_for(&[1, 2]);
    let mut chain = Chain::new();
    let _ = accept_countersigning_preflight_request(&mut chain, &req, 1, 500, 100);
    assert!(chain.lock.is_some());
    // before expiry the lock stands
    chain.release_expired_lock(4999);
    assert!(chain.lock.is_some());
    // at the window's end the session is abandoned and writes resume
    chain.release_expired_lock(5000);
    assert!(chain.lock.is_none());
    assert!(chain.append_entry(9, 5001).is_ok());
}
