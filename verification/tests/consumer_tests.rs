//! The coalescing trigger, the consumer step machine, and the retry policy.

use ledger_core::consumer::ErrorClass;
use ledger_core::consumer::QueueConsumer;
use ledger_core::consumer::RetryDecision;
use ledger_core::consumer::RetryPolicy;
use ledger_core::consumer::TriggerState;
use ledger_core::consumer::WorkComplete;

#[test]
fn trigger_coalesces_repeated_signals() {
    let mut t = TriggerState::new();
    assert!(!t.pending);
    t.trigger();
    t.trigger();
    t.trigger();
    // however many raises, exactly one pending unit
    assert!(t.try_consume());
    assert!(!t.try_consume());
    assert!(!t.pending);
}

#[test]
fn incomplete_burst_runs_once_per_result_then_idles() {
    // Incomplete, Incomplete, Complete: three runs, one per result, then idle
    let outcomes = [
        WorkComplete::Incomplete,
        WorkComplete::Incomplete,
        WorkComplete::Complete,
    ];
    let mut c = QueueConsumer::new();
    c.self_trigger.trigger();
    let mut runs = 0u64;
    for o in outcomes {
        assert!(c.self_trigger.pending, "a run must be preceded by a wakeup");
        c.run_iteration(o);
        runs += 1;
    }
    assert_eq!(c.runs, 3);
    assert_eq!(runs, 3);
    // after the Complete no wakeup is pending: no extra spurious run
    assert!(!c.self_trigger.pending);
}

#[test]
fn external_trigger_during_idle_wakes_exactly_once() {
    let mut c = QueueConsumer::new();
    c.self_trigger.trigger();
    c.run_iteration(WorkComplete::Complete);
    assert!(!c.self_trigger.pending);
    // two external signals coalesce into one run
    c.self_trigger.trigger();
    c.self_trigger.trigger();
    assert!(c.self_trigger.pending);
    c.run_iteration(WorkComplete::Complete);
    assert_eq!(c.runs, 2);
    assert!(!c.self_trigger.pending);
}

#[test]
fn backoff_doubles_and_caps() {
    let p = RetryPolicy { max_attempts: 5, base_delay_ms: 100, max_delay_ms: 1000 };
    assert_eq!(p.backoff_delay_ms(0), 100);
    assert_eq!(p.backoff_delay_ms(1), 200);
    assert_eq!(p.backoff_delay_ms(2), 400);
    assert_eq!(p.backoff_delay_ms(3), 800);
    assert_eq!(p.backoff_delay_ms(4), 1000);
    assert_eq!(p.backoff_delay_ms(10), 1000);
}

#[test]
fn retry_decisions_bound_attempts_and_escalate() {
    let p = RetryPolicy { max_attempts: 2, base_delay_ms: 50, max_delay_ms: 400 };
    assert_eq!(
        p.next_decision(0, ErrorClass::Transient),
        RetryDecision::Retry { delay_ms: 50 }
    );
    assert_eq!(
        p.next_decision(1, ErrorClass::Transient),
        RetryDecision::Retry { delay_ms: 100 }
    );
    // attempts exhausted: escalate instead of looping silently
    assert_eq!(p.next_decision(2, ErrorClass::Transient), RetryDecision::GiveUp);
    // fatal errors escalate at once
    assert_eq!(p.next_decision(0, ErrorClass::Fatal), RetryDecision::GiveUp);
}
