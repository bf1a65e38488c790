//! The integration workflow: dependency order, atomicity, idempotence.

use ledger_core::consumer::TriggerState;
use ledger_core::consumer::WorkComplete;
use ledger_core::integration::integrate_dht_ops_workflow;
use ledger_core::integration::DhtOp;
use ledger_core::integration::IntegrateDhtOpsWorkspace;
use ledger_core::integration::Store;
use ledger_core::integration::ValidationStatus;

fn op(id: u64, deps: Vec<u64>, status: ValidationStatus) -> DhtOp {
    DhtOp { id, deps, status, integrated: false }
}

fn integrated_flags(store: &Store) -> Vec<bool> {
    store.ops.iter().map(|o| o.integrated).collect()
}

#[test]
fn integrates_dependency_chain_in_one_invocation() {
    // C depends on B depends on A: one invocation integrates all three
    let mut store = Store {
        ops: vec![
            op(3, vec![2], ValidationStatus::Valid),
            op(1, vec![], ValidationStatus::Valid),
            op(2, vec![1], ValidationStatus::Valid),
        ],
    };
    let mut downstream = TriggerState::new();
    let r = integrate_dht_ops_workflow(&mut store, &mut downstream);
    assert_eq!(r, WorkComplete::Complete);
    assert_eq!(integrated_flags(&store), vec![true, true, true]);
    // something was integrated: the downstream consumer was triggered
    assert!(downstream.pending);
}

#[test]
fn blocked_on_missing_dependency_is_incomplete_not_error() {
    let mut store = Store {
        ops: vec![
            op(1, vec![], ValidationStatus::Valid),
            op(2, vec![99], ValidationStatus::Valid), // 99 is nowhere
        ],
    };
    let mut downstream = TriggerState::new();
    let r = integrate_dht_ops_workflow(&mut store, &mut downstream);
    assert_eq!(r, WorkComplete::Incomplete);
    assert_eq!(integrated_flags(&store), vec![true, false]);
    assert!(downstream.pending);
}

#[test]
fn rejected_op_neither_integrates_nor_unblocks() {
    let mut store = Store {
        ops: vec![
            op(1, vec![], ValidationStatus::Rejected),
            op(2, vec![1], ValidationStatus::Valid),
        ],
    };
    let mut downstream = TriggerState::new();
    let r = integrate_dht_ops_workflow(&mut store, &mut downstream);
    assert_eq!(r, WorkComplete::Incomplete);
    assert_eq!(integrated_flags(&store), vec![false, false]);
    // nothing was integrated: no downstream trigger
    assert!(!downstream.pending);
}

#[test]
fn rerun_after_complete_performs_zero_writes() {
    let mut store = Store {
        ops: vec![
            op(1, vec![], ValidationStatus::Valid),
            op(2, vec![1], ValidationStatus::Valid),
            op(7, vec![], ValidationStatus::Abandoned),
        ],
    };
    let mut downstream = TriggerState::new();
    assert_eq!(
        integrate_dht_ops_workflow(&mut store, &mut downstream),
        WorkComplete::Complete
    );
    assert!(downstream.try_consume());
    let before = integrated_flags(&store);
    // run again with no new operations: zero writes, no trigger
    let r = integrate_dht_ops_workflow(&mut store, &mut downstream);
    assert_eq!(r, WorkComplete::Complete);
    assert_eq!(integrated_flags(&store), before);
    assert!(!downstream.pending);
}

#[test]
fn interrupted_invocation_leaves_no_trace() {
    let store = Store {
        ops: vec![
            op(1, vec![], ValidationStatus::Valid),
            op(2, vec![1], ValidationStatus::Valid),
        ],
    };
    // the workspace plans the whole invocation ...
    let ws = IntegrateDhtOpsWorkspace::new(&store);
    assert_eq!(ws.planned.len(), 2);
    // ... but the invocation is interrupted before commit: drop the
    // workspace; a subsequent read observes none of its operations as
    // integrated
    drop(ws);
    assert_eq!(integrated_flags(&store), vec![false, false]);
}
