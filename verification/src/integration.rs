//! The integration workflow: scan the store for pending distributed
//! operations whose dependencies are already satisfied and integrate them,
//! in dependency order, inside one atomic commit per invocation.
//!
//! All selection happens in a per-invocation [`IntegrateDhtOpsWorkspace`];
//! the durable [`Store`] changes only in [`Store::commit`]. An invocation
//! interrupted before commit therefore leaves the store exactly as it was,
//! and readers never observe a partially integrated dependency graph.

use vstd::prelude::*;
use vstd::set_lib::lemma_int_range;
use vstd::set_lib::lemma_len_subset;
use vstd::set_lib::set_int_range;
use crate::consumer::TriggerState;
use crate::consumer::WorkComplete;

verus! {

/// Validation verdict carried by an operation; only `Valid` permits
/// integration.
#[derive(Clone, Copy, PartialEq, Eq, Structural, Debug)]
pub enum ValidationStatus {
    Valid,
    Rejected,
    Abandoned,
}

/// An atomic unit of validated distributed state change, keyed by its
/// content hash. It is integrated only once every operation it depends on
/// is already integrated.
#[derive(Debug)]
pub struct DhtOp {
    /// Content hash identifying the operation.
    pub id: u64,
    /// Content hashes of the operations this one depends on.
    pub deps: Vec<u64>,
    /// Validation verdict.
    pub status: ValidationStatus,
    /// Whether the operation has been integrated into the authoritative
    /// store.
    pub integrated: bool,
}

/// The authoritative store's queue of distributed operations.
#[derive(Debug)]
pub struct Store {
    pub ops: Vec<DhtOp>,
}

/// Some operation with this id is integrated.
pub open spec fn op_integrated(s: Seq<DhtOp>, d: u64) -> bool {
    exists|i: int| 0 <= i < s.len() && (#[trigger] s[i]).id == d && s[i].integrated
}

/// Every listed dependency is integrated.
pub open spec fn deps_integrated(s: Seq<DhtOp>, deps: Seq<u64>) -> bool {
    forall|j: int| 0 <= j < deps.len() ==> op_integrated(s, #[trigger] deps[j])
}

/// The operation at index `i` awaits integration: valid and not yet
/// integrated.
pub open spec fn candidate(s: Seq<DhtOp>, i: int) -> bool {
    0 <= i < s.len() && s[i].status is Valid && !s[i].integrated
}

/// The operation at index `i` can be integrated right now.
pub open spec fn op_ready(s: Seq<DhtOp>, i: int) -> bool {
    candidate(s, i) && deps_integrated(s, s[i].deps@)
}

/// Every valid operation has been integrated: nothing actionable remains.
pub open spec fn all_valid_integrated(s: Seq<DhtOp>) -> bool {
    forall|i: int|
        0 <= i < s.len() && (#[trigger] s[i]).status is Valid ==> s[i].integrated
}

/// The index `i` occurs in the integration order `ord`.
pub open spec fn contains_index(ord: Seq<usize>, i: int) -> bool {
    exists|m: int| 0 <= m < ord.len() && (#[trigger] ord[m]) as int == i
}

/// Dependency `d` is available at position `k` of the order: integrated in
/// the starting store, or produced by an operation earlier in the order.
pub open spec fn dep_covered(s0: Seq<DhtOp>, ord: Seq<usize>, k: int, d: u64) -> bool {
    op_integrated(s0, d) || exists|m: int|
        0 <= m < k && m < ord.len() && ((#[trigger] ord[m]) as int) < s0.len() && s0[ord[m] as int].id
            == d
}

/// Every dependency in `deps` is available at position `k` of the order.
pub open spec fn covered_upto(s0: Seq<DhtOp>, ord: Seq<usize>, k: int, deps: Seq<u64>) -> bool {
    forall|j: int| 0 <= j < deps.len() ==> dep_covered(s0, ord, k, #[trigger] deps[j])
}

/// Every dependency in `deps` is available once the whole order has run.
pub open spec fn all_deps_covered(s0: Seq<DhtOp>, ord: Seq<usize>, deps: Seq<u64>) -> bool {
    covered_upto(s0, ord, ord.len() as int, deps)
}

/// Position `k` of the order names a valid, previously unintegrated
/// operation whose every dependency was integrated before the invocation
/// or earlier in the order.
pub open spec fn justified_at(s0: Seq<DhtOp>, ord: Seq<usize>, k: int) -> bool {
    &&& (ord[k] as int) < s0.len()
    &&& s0[ord[k] as int].status is Valid
    &&& !s0[ord[k] as int].integrated
    &&& covered_upto(s0, ord, k, s0[ord[k] as int].deps@)
}

/// `ord` is a dependency order over the starting store `s0`: distinct
/// indices, each justified at its position.
pub open spec fn dep_justified_order(s0: Seq<DhtOp>, ord: Seq<usize>) -> bool {
    &&& ord.no_duplicates()
    &&& forall|k: int| 0 <= k < ord.len() ==> #[trigger] justified_at(s0, ord, k)
}

/// The order is maximal: any candidate whose dependencies the order covers
/// is itself in the order, so whatever it leaves out is genuinely blocked.
pub open spec fn saturated(s0: Seq<DhtOp>, ord: Seq<usize>) -> bool {
    forall|i: int|
        #[trigger] candidate(s0, i) && all_deps_covered(s0, ord, s0[i].deps@) ==> contains_index(
            ord,
            i,
        )
}

/// `s1` is `s0` with the same operations — ids, dependencies and statuses
/// untouched — and integration flags only ever raised.
pub open spec fn same_ops_monotone(s0: Seq<DhtOp>, s1: Seq<DhtOp>) -> bool {
    &&& s1.len() == s0.len()
    &&& forall|i: int|
        0 <= i < s0.len() ==> {
            &&& (#[trigger] s1[i]).id == s0[i].id
            &&& s1[i].deps@ == s0[i].deps@
            &&& s1[i].status == s0[i].status
            &&& (s0[i].integrated ==> s1[i].integrated)
        }
}

/// `s1` is `s0` with exactly the operations listed in `ord` newly
/// integrated.
pub open spec fn integrates_exactly(s0: Seq<DhtOp>, s1: Seq<DhtOp>, ord: Seq<usize>) -> bool {
    &&& same_ops_monotone(s0, s1)
    &&& forall|i: int|
        0 <= i < s0.len() ==> ((#[trigger] s1[i]).integrated <==> s0[i].integrated
            || contains_index(ord, i))
}

/// A distinct bounded index sequence has at most `n` entries.
proof fn lemma_distinct_bounded_len(s: Seq<usize>, n: nat)
    requires
        s.no_duplicates(),
        forall|k: int| 0 <= k < s.len() ==> ((#[trigger] s[k]) as int) < n,
    ensures
        s.len() <= n,
{
    broadcast use vstd::seq_lib::group_seq_properties;
    let f = |x: usize| x as int;
    let si = s.map_values(f);
    assert(vstd::relations::injective(f));
    s.lemma_no_duplicates_injective(f);
    si.unique_seq_to_set();
    assert(si.to_set().subset_of(set_int_range(0, n as int))) by {
        assert forall|x: int| si.to_set().contains(x) implies set_int_range(0, n as int).contains(
            x,
        ) by {
            assert(si.contains(x));
            let k = choose|k: int| 0 <= k < si.len() && si[k] == x;
            assert(si[k] == f(s[k]));
        }
    }
    lemma_int_range(0, n as int);
    lemma_len_subset(si.to_set(), set_int_range(0, n as int));
}

/// Whether `planned` holds the value `x`.
fn planned_contains(planned: &Vec<usize>, x: usize) -> (r: bool)
    ensures
        r == contains_index(planned@, x as int),
{
    let mut k: usize = 0;
    while k < planned.len()
        invariant
            k <= planned@.len(),
            forall|m: int| 0 <= m < k ==> (#[trigger] planned@[m]) != x,
        decreases planned@.len() - k,
    {
        if planned[k] == x {
            return true;
        }
        k = k + 1;
    }
    false
}

/// Whether dependency `d` is integrated in the store or produced by some
/// already planned operation.
fn is_dep_covered(store: &Store, planned: &Vec<usize>, d: u64) -> (r: bool)
    requires
        forall|k: int| 0 <= k < planned@.len() ==> (#[trigger] planned@[k]) < store.ops@.len(),
    ensures
        r == dep_covered(store.ops@, planned@, planned@.len() as int, d),
{
    let n = store.ops.len();
    let mut i: usize = 0;
    while i < n
        invariant
            n == store.ops@.len(),
            i <= n,
            forall|m: int|
                0 <= m < i ==> !((#[trigger] store.ops@[m]).id == d && store.ops@[m].integrated),
        decreases n - i,
    {
        if store.ops[i].integrated && store.ops[i].id == d {
            return true;
        }
        i = i + 1;
    }
    let mut k: usize = 0;
    while k < planned.len()
        invariant
            forall|k2: int| 0 <= k2 < planned@.len() ==> (#[trigger] planned@[k2])
                < store.ops@.len(),
            k <= planned@.len(),
            forall|m: int|
                0 <= m < i ==> !((#[trigger] store.ops@[m]).id == d && store.ops@[m].integrated),
            i == store.ops@.len(),
            forall|m: int|
                0 <= m < k ==> store.ops@[(#[trigger] planned@[m]) as int].id != d,
        decreases planned@.len() - k,
    {
        if store.ops[planned[k]].id == d {
            return true;
        }
        k = k + 1;
    }
    false
}

/// Whether every dependency in `deps` is covered by the store plus the
/// planned operations.
fn all_deps_covered_exec(store: &Store, planned: &Vec<usize>, deps: &Vec<u64>) -> (r: bool)
    requires
        forall|k: int| 0 <= k < planned@.len() ==> (#[trigger] planned@[k]) < store.ops@.len(),
    ensures
        r == all_deps_covered(store.ops@, planned@, deps@),
{
    let mut j: usize = 0;
    while j < deps.len()
        invariant
            forall|k: int| 0 <= k < planned@.len() ==> (#[trigger] planned@[k])
                < store.ops@.len(),
            j <= deps@.len(),
            forall|m: int|
                0 <= m < j ==> dep_covered(
                    store.ops@,
                    planned@,
                    planned@.len() as int,
                    #[trigger] deps@[m],
                ),
        decreases deps@.len() - j,
    {
        if !is_dep_covered(store, planned, deps[j]) {
            return false;
        }
        j = j + 1;
    }
    true
}

/// A scoped, per-invocation view over the durable store: the ordered plan
/// of operations this invocation will integrate. The store itself is not
/// touched until [`Store::commit`].
pub struct IntegrateDhtOpsWorkspace {
    /// Indices of the store's operations, in integration (dependency)
    /// order.
    pub planned: Vec<usize>,
}

impl IntegrateDhtOpsWorkspace {
    /// Scan the store and plan every operation that can be integrated this
    /// invocation, cascading through dependencies, until nothing more can
    /// be planned.
    pub fn new(store: &Store) -> (w: IntegrateDhtOpsWorkspace)
        ensures
            dep_justified_order(store.ops@, w.planned@),
            saturated(store.ops@, w.planned@),
            forall|k: int| 0 <= k < w.planned@.len() ==> (#[trigger] w.planned@[k])
                < store.ops@.len(),
    {
        let s0 = store;
        let n = s0.ops.len();
        let mut planned: Vec<usize> = Vec::new();
        let mut progressed = true;
        while progressed
            invariant
                n == s0.ops@.len(),
                planned@.len() <= n,
                planned@.no_duplicates(),
                forall|k: int| 0 <= k < planned@.len() ==> (#[trigger] planned@[k]) < n,
                dep_justified_order(s0.ops@, planned@),
                !progressed ==> saturated(s0.ops@, planned@),
            decreases n - planned@.len(), (if progressed { 1int } else { 0int }),
        {
            let before = planned.len();
            let ghost p0 = planned@;
            let mut i: usize = 0;
            while i < n
                invariant
                    n == s0.ops@.len(),
                    i <= n,
                    before == p0.len(),
                    planned@.len() >= p0.len(),
                    planned@.take(p0.len() as int) == p0,
                    planned@.no_duplicates(),
                    forall|k: int| 0 <= k < planned@.len() ==> (#[trigger] planned@[k]) < n,
                    dep_justified_order(s0.ops@, planned@),
                    planned@.len() == p0.len() ==> forall|ii: int|
                        0 <= ii < i && #[trigger] candidate(s0.ops@, ii) && all_deps_covered(
                            s0.ops@,
                            planned@,
                            s0.ops@[ii].deps@,
                        ) ==> contains_index(planned@, ii),
                decreases n - i,
            {
                let valid = matches!(s0.ops[i].status, ValidationStatus::Valid);
                if valid && !s0.ops[i].integrated && !planned_contains(&planned, i)
                    && all_deps_covered_exec(s0, &planned, &s0.ops[i].deps) {
                    let ghost old_planned = planned@;
                    planned.push(i);
                    proof {
                        assert(planned@.drop_last() =~= old_planned);
                        assert(planned@.take(p0.len() as int) =~= old_planned.take(
                            p0.len() as int,
                        ));
                        // the new entry is justified at its position, and
                        // extending the order disturbs no earlier position
                        assert forall|k: int| 0 <= k < planned@.len() implies #[trigger] justified_at(
                            s0.ops@,
                            planned@,
                            k,
                        ) by {
                            if k < old_planned.len() {
                                assert(justified_at(s0.ops@, old_planned, k));
                                assert forall|j: int|
                                    0 <= j < s0.ops@[old_planned[k] as int].deps@.len() implies dep_covered(
                                    s0.ops@,
                                    planned@,
                                    k,
                                    #[trigger] s0.ops@[old_planned[k] as int].deps@[j],
                                ) by {
                                    let d = s0.ops@[old_planned[k] as int].deps@[j];
                                    assert(dep_covered(s0.ops@, old_planned, k, d));
                                    if !op_integrated(s0.ops@, d) {
                                        let m = choose|m: int|
                                            0 <= m < k && m < old_planned.len() && ((
                                            #[trigger] old_planned[m]) as int) < s0.ops@.len()
                                                && s0.ops@[old_planned[m] as int].id == d;
                                        assert(planned@[m] == old_planned[m]);
                                    }
                                }
                            } else {
                                assert(planned@[k] == i);
                                assert forall|j: int|
                                    0 <= j < s0.ops@[i as int].deps@.len() implies dep_covered(
                                    s0.ops@,
                                    planned@,
                                    k,
                                    #[trigger] s0.ops@[i as int].deps@[j],
                                ) by {
                                    let d = s0.ops@[i as int].deps@[j];
                                    assert(dep_covered(
                                        s0.ops@,
                                        old_planned,
                                        old_planned.len() as int,
                                        d,
                                    ));
                                    if !op_integrated(s0.ops@, d) {
                                        let m = choose|m: int|
                                            0 <= m < old_planned.len() && ((
                                            #[trigger] old_planned[m]) as int) < s0.ops@.len()
                                                && s0.ops@[old_planned[m] as int].id == d;
                                        assert(planned@[m] == old_planned[m]);
                                    }
                                }
                            }
                        }
                    }
                }
                i = i + 1;
            }
            progressed = planned.len() > before;
            proof {
                lemma_distinct_bounded_len(planned@, n as nat);
                if planned@.len() == p0.len() {
                    assert(saturated(s0.ops@, planned@));
                }
            }
        }
        IntegrateDhtOpsWorkspace { planned }
    }
}

impl Store {
    /// Atomically apply a workspace's plan: exactly the planned operations
    /// become integrated, in one step; nothing else changes. With an empty
    /// plan the store is untouched — a completed invocation repeated
    /// performs zero writes.
    pub fn commit(&mut self, ws: &IntegrateDhtOpsWorkspace)
        requires
            forall|k: int| 0 <= k < ws.planned@.len() ==> (#[trigger] ws.planned@[k])
                < old(self).ops@.len(),
        ensures
            integrates_exactly(old(self).ops@, final(self).ops@, ws.planned@),
            ws.planned@.len() == 0 ==> *final(self) == *old(self),
    {
        let mut k: usize = 0;
        while k < ws.planned.len()
            invariant
                forall|k2: int| 0 <= k2 < ws.planned@.len() ==> (#[trigger] ws.planned@[k2])
                    < old(self).ops@.len(),
                k <= ws.planned@.len(),
                self.ops@.len() == old(self).ops@.len(),
                forall|i: int|
                    0 <= i < old(self).ops@.len() ==> {
                        &&& (#[trigger] self.ops@[i]).id == old(self).ops@[i].id
                        &&& self.ops@[i].deps == old(self).ops@[i].deps
                        &&& self.ops@[i].status == old(self).ops@[i].status
                        &&& (self.ops@[i].integrated <==> old(self).ops@[i].integrated
                            || contains_index(ws.planned@.take(k as int), i))
                    },
                k == 0 ==> *self == *old(self),
            decreases ws.planned@.len() - k,
        {
            let idx = ws.planned[k];
            let ghost prev = self.ops@;
            self.ops[idx].integrated = true;
            proof {
                let tk = ws.planned@.take(k as int);
                let tk1 = ws.planned@.take(k + 1);
                assert(tk1 =~= tk.push(ws.planned@[k as int]));
                assert(self.ops@[idx as int].integrated);
                assert(contains_index(tk1, idx as int)) by {
                    assert(tk1[k as int] == idx);
                }
                assert forall|i: int| 0 <= i < old(self).ops@.len() implies ((
                #[trigger] self.ops@[i]).integrated <==> old(self).ops@[i].integrated
                    || contains_index(tk1, i)) by {
                    if i == idx as int {
                        assert(self.ops@[i].integrated);
                    } else {
                        assert(self.ops@[i] == prev[i]);
                        if contains_index(tk, i) {
                            let m = choose|m: int|
                                0 <= m < tk.len() && (#[trigger] tk[m]) as int == i;
                            assert(tk1[m] == tk[m]);
                            assert(contains_index(tk1, i));
                        }
                        if contains_index(tk1, i) {
                            let m = choose|m: int|
                                0 <= m < tk1.len() && (#[trigger] tk1[m]) as int == i;
                            assert(m != k as int);
                            assert(tk[m] == tk1[m]);
                            assert(contains_index(tk, i));
                        }
                    }
                }
            }
            k = k + 1;
        }
        proof {
            assert(ws.planned@.take(ws.planned@.len() as int) =~= ws.planned@);
        }
    }
}

/// Run one integration invocation against the store: plan everything whose
/// dependencies are satisfied, commit the plan atomically, raise the
/// downstream trigger exactly when at least one operation was integrated,
/// and report whether actionable work remains. `Incomplete` means some
/// valid operation is still blocked on an unmet dependency — a normal
/// steady state, not a failure.
pub fn integrate_dht_ops_workflow(store: &mut Store, downstream: &mut TriggerState) -> (r:
    WorkComplete)
    ensures
        exists|ord: Seq<usize>|
            #[trigger] dep_justified_order(old(store).ops@, ord) && integrates_exactly(
                old(store).ops@,
                final(store).ops@,
                ord,
            ),
        forall|i: int| 0 <= i < final(store).ops@.len() ==> !op_ready(final(store).ops@, i),
        r is Complete <==> all_valid_integrated(final(store).ops@),
        final(downstream).pending == (old(downstream).pending || exists|i: int|
            0 <= i < final(store).ops@.len() && (#[trigger] final(store).ops@[i]).integrated && !old(
                store,
            ).ops@[i].integrated),
        all_valid_integrated(old(store).ops@) ==> *final(store) == *old(store) && r is Complete
            && *final(downstream) == *old(downstream),
{
    let ghost s0 = store.ops@;
    let ws = IntegrateDhtOpsWorkspace::new(store);
    store.commit(&ws);
    let ghost s1 = store.ops@;
    let ghost ord = ws.planned@;
    proof {
        // whatever is left unintegrated is genuinely blocked
        assert forall|i: int| 0 <= i < s1.len() implies !op_ready(s1, i) by {
            if op_ready(s1, i) {
                assert(candidate(s0, i));
                assert forall|j: int| 0 <= j < s0[i].deps@.len() implies dep_covered(
                    s0,
                    ord,
                    ord.len() as int,
                    #[trigger] s0[i].deps@[j],
                ) by {
                    let d = s0[i].deps@[j];
                    assert(s1[i].deps@ == s0[i].deps@);
                    assert(op_integrated(s1, d));
                    let w = choose|w: int| 0 <= w < s1.len() && (#[trigger] s1[w]).id == d
                        && s1[w].integrated;
                    if s0[w].integrated {
                        assert(op_integrated(s0, d));
                    } else {
                        assert(contains_index(ord, w));
                        let m = choose|m: int| 0 <= m < ord.len() && (#[trigger] ord[m]) as int
                            == w;
                        assert(dep_covered(s0, ord, ord.len() as int, d));
                    }
                }
                assert(all_deps_covered(s0, ord, s0[i].deps@));
                assert(contains_index(ord, i));
                assert(s1[i].integrated);
            }
        }
        // an op was newly integrated exactly when the plan was non-empty
        if ord.len() > 0 {
            assert(justified_at(s0, ord, 0));
            assert(contains_index(ord, ord[0] as int));
            assert(s1[ord[0] as int].integrated && !s0[ord[0] as int].integrated);
        }
        // an already-drained store stays untouched
        if all_valid_integrated(s0) {
            if ord.len() > 0 {
                assert(justified_at(s0, ord, 0));
                assert(candidate(s0, ord[0] as int));
            }
        }
    }
    if ws.planned.len() > 0 {
        downstream.trigger();
    }
    let complete = all_valid_integrated_exec(store);
    proof {
        if exists|i: int|
            0 <= i < s1.len() && (#[trigger] s1[i]).integrated && !s0[i].integrated {
            let i = choose|i: int|
                0 <= i < s1.len() && (#[trigger] s1[i]).integrated && !s0[i].integrated;
            assert(contains_index(ord, i));
            assert(ord.len() > 0);
        }
    }
    if complete {
        WorkComplete::Complete
    } else {
        WorkComplete::Incomplete
    }
}

/// Whether every valid operation in the store is integrated.
fn all_valid_integrated_exec(store: &Store) -> (r: bool)
    ensures
        r == all_valid_integrated(store.ops@),
{
    let mut i: usize = 0;
    while i < store.ops.len()
        invariant
            i <= store.ops@.len(),
            forall|m: int|
                0 <= m < i ==> ((#[trigger] store.ops@[m]).status is Valid
                    ==> store.ops@[m].integrated),
        decreases store.ops@.len() - i,
    {
        let valid = matches!(store.ops[i].status, ValidationStatus::Valid);
        if valid && !store.ops[i].integrated {
            return false;
        }
        i = i + 1;
    }
    true
}

} // verus!
