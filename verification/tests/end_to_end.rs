//! Two agents negotiate a countersigned entry end to end, and the
//! resulting distributed operations flow through the queue consumer.

use ledger_core::chain::Chain;
use ledger_core::chain::GENESIS_HASH;
use ledger_core::consumer::QueueConsumer;
use ledger_core::consumer::TriggerState;
use ledger_core::consumer::WorkComplete;
use ledger_core::countersign::accept_countersigning_preflight_request;
use ledger_core::countersign::create_countersigned;
use ledger_core::countersign::preflight_request_hash;
use ledger_core::countersign::session_times_from_millis;
use ledger_core::countersign::HeaderBase;
use ledger_core::countersign::Participant;
use ledger_core::countersign::PreflightRequest;
use ledger_core::countersign::PreflightRequestAcceptance;
use ledger_core::integration::integrate_dht_ops_workflow;
use ledger_core::integration::DhtOp;
use ledger_core::integration::Store;
use ledger_core::integration::ValidationStatus;

const ALICE: u64 = 1;
const BOB: u64 = 2;

#[test]
fn two_agents_countersign_and_integrate() {
    // the initiator proposes a 5000 ms window over an agreed entry
    let times = session_times_from_millis(0, 5000).unwrap();
    let request = PreflightRequest::try_new(
        424242,
        vec![
            Participant { agent: ALICE, roles: vec![0] },
            Participant { agent: BOB, roles: vec![1] },
        ],
        None,
        times,
        HeaderBase::Create { entry_type: 3 },
        vec![7, 7],
    )
    .unwrap();

    // both agents accept within 1000 ms, each locking its own chain
    let mut alice_chain = Chain::new();
    let mut bob_chain = Chain::new();
    let alice_resp =
        match accept_countersigning_preflight_request(&mut alice_chain, &request, ALICE, 91, 400)
        {
            PreflightRequestAcceptance::Accepted(r) => r,
            other => panic!("alice should accept, got {:?}", other),
        };
    let bob_resp =
        match accept_countersigning_preflight_request(&mut bob_chain, &request, BOB, 92, 900) {
            PreflightRequestAcceptance::Accepted(r) => r,
            other => panic!("bob should accept, got {:?}", other),
        };

    // each participant gathers the full response set — in either order —
    // and commits on its own chain inside the window
    let alice_h = create_countersigned(
        &mut alice_chain,
        request.clone(),
        &vec![alice_resp, bob_resp],
        ALICE,
        1500,
    )
    .unwrap();
    let bob_h = create_countersigned(
        &mut bob_chain,
        request.clone(),
        &vec![bob_resp, alice_resp],
        BOB,
        1600,
    )
    .unwrap();

    // both chains show the countersigned entry as their immediate next
    // header, wrapping byte-identical session records
    let session_hash = preflight_request_hash(&request);
    for (chain, h) in [(&alice_chain, alice_h), (&bob_chain, bob_h)] {
        assert_eq!(chain.headers.len(), 1);
        assert_eq!(chain.headers[0].hash, h);
        assert_eq!(chain.headers[0].prev_hash, GENESIS_HASH);
        assert_eq!(chain.headers[0].countersigned_session, Some(session_hash));
        assert!(chain.lock.is_none());
    }
    assert_eq!(alice_chain.headers[0].entry_hash, bob_chain.headers[0].entry_hash);

    // a corresponding distributed operation appears in each agent's
    // outgoing queue and the consumer loop later integrates it as Complete
    for (chain, h) in [(&alice_chain, alice_h), (&bob_chain, bob_h)] {
        let mut store = Store {
            ops: vec![DhtOp {
                id: h,
                deps: vec![],
                status: ValidationStatus::Valid,
                integrated: false,
            }],
        };
        let mut consumer = QueueConsumer::new();
        let mut downstream = TriggerState::new();
        consumer.self_trigger.trigger();
        let mut last = WorkComplete::Incomplete;
        while consumer.self_trigger.pending {
            last = integrate_dht_ops_workflow(&mut store, &mut downstream);
            consumer.run_iteration(last);
        }
        assert_eq!(last, WorkComplete::Complete);
        assert_eq!(consumer.runs, 1);
        assert!(store.ops[0].integrated);
        assert!(downstream.pending);
        let _ = chain;
    }
}
