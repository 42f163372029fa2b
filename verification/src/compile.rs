//! The algorithmic core of compilation: topological ordering of the passes
//! with cycle detection, the synchronization check over declared resource
//! usage, liveness computation, and greedy slot aliasing.

use vstd::prelude::*;
use vstd::pervasive::VecAdditionalExecFns;
use vstd::seq_lib::*;
use vstd::set_lib::lemma_int_range;
use vstd::set_lib::lemma_len_subset;

use crate::resources::LogicalResources;
use crate::storage::StoredSetup;
use crate::storage::VirtualResources;
use crate::types::Dependency;
use crate::types::PassId;
use crate::types::ResourceId;
use crate::types::ResourceKind;

verus! {

/// Every dependency connects two distinct passes below `n`.
pub open spec fn deps_wf(deps: Seq<Dependency>, n: nat) -> bool {
    forall|i: int|
        0 <= i < deps.len() ==> (#[trigger] deps[i]).start.0 < n && deps[i].end.0 < n
            && deps[i].start.0 != deps[i].end.0
}

/// Pass `p` occurs among the first `k` entries of `order`.
pub open spec fn emitted_before(order: Seq<PassId>, k: int, p: int) -> bool {
    exists|j: int| 0 <= j < k && (#[trigger] order[j]).0 == p
}

/// Every producer of pass `p` is already marked emitted.
pub open spec fn ready_in(deps: Seq<Dependency>, emitted: Seq<bool>, p: int) -> bool {
    forall|i: int|
        0 <= i < deps.len() && (#[trigger] deps[i]).end.0 == p ==> emitted[deps[i].start.0 as int]
}

/// Every dependency whose consumer stands in `order` has its producer
/// standing earlier in `order`.
pub open spec fn order_respects(deps: Seq<Dependency>, order: Seq<PassId>) -> bool {
    forall|d: int, i: int|
        0 <= d < deps.len() && 0 <= i < order.len() && (#[trigger] order[i]).0 == (
        #[trigger] deps[d]).end.0 ==> emitted_before(order, i, deps[d].start.0 as int)
}

/// A successful topological sort of `n` passes: a duplicate-free order of
/// exactly the passes `0 .. n` in which every producer precedes its
/// consumers; with no dependencies at all it is the registration order.
pub open spec fn topo_ok(deps: Seq<Dependency>, n: nat, order: Seq<PassId>) -> bool {
    &&& order.len() == n
    &&& forall|j: int| 0 <= j < order.len() ==> (#[trigger] order[j]).0 < n
    &&& forall|p: int| 0 <= p < n ==> emitted_before(order, n as int, p)
    &&& order.no_duplicates()
    &&& order_respects(deps, order)
    &&& (deps.len() == 0 ==> forall|j: int| 0 <= j < order.len() ==> (#[trigger] order[j]).0 == j)
}

/// Pass number `j` of `cycle` has a producer that is itself in `cycle`.
pub open spec fn waits_inside(deps: Seq<Dependency>, cycle: Seq<PassId>, j: int) -> bool {
    exists|i: int|
        0 <= i < deps.len() && (#[trigger] deps[i]).end == cycle[j] && cycle.contains(
            deps[i].start,
        )
}

/// A failed topological sort: `cycle` is the nonempty set of passes that can
/// never become ready, each of them waiting on a producer inside `cycle`
/// (the certificate of cyclicity), and `partial` is a valid partial order of
/// exactly the remaining passes.
pub open spec fn cycle_report_ok(
    deps: Seq<Dependency>,
    n: nat,
    cycle: Seq<PassId>,
    partial: Seq<PassId>,
) -> bool {
    &&& cycle.len() > 0
    &&& partial.len() < n
    &&& cycle.no_duplicates()
    &&& partial.no_duplicates()
    &&& forall|j: int| 0 <= j < cycle.len() ==> (#[trigger] cycle[j]).0 < n
    &&& forall|j: int| 0 <= j < partial.len() ==> (#[trigger] partial[j]).0 < n
    &&& forall|p: int|
        0 <= p < n ==> (cycle.contains(PassId(p as usize)) <==> !emitted_before(
            partial,
            partial.len() as int,
            p,
        ))
    &&& order_respects(deps, partial)
    &&& forall|j: int| 0 <= j < cycle.len() ==> #[trigger] waits_inside(deps, cycle, j)
}

/// A duplicate-free sequence of passes with ids below `n` cannot cover all
/// of `0 .. n` while being shorter than `n`.
proof fn lemma_some_unemitted(order: Seq<PassId>, n: nat)
    requires
        order.no_duplicates(),
        forall|j: int| 0 <= j < order.len() ==> (#[trigger] order[j]).0 < n,
        order.len() < n,
    ensures
        exists|p: int| 0 <= p < n && !emitted_before(order, order.len() as int, p),
{
    broadcast use vstd::set::group_set_axioms, seq_to_set_is_finite;

    if forall|p: int| 0 <= p < n ==> emitted_before(order, order.len() as int, p) {
        let ids = order.map_values(|q: PassId| q.0 as int);
        assert(ids.no_duplicates()) by {
            assert forall|i: int, j: int| 0 <= i < ids.len() && 0 <= j < ids.len() && i != j
                implies ids[i] != ids[j] by {
                assert(order[i] != order[j]);
            }
        }
        ids.unique_seq_to_set();
        let range = Set::new(|p: int| 0 <= p < n);
        assert(range.subset_of(ids.to_set())) by {
            assert forall|p: int| range.contains(p) implies ids.to_set().contains(p) by {
                assert(emitted_before(order, order.len() as int, p));
                let j = choose|j: int| 0 <= j < order.len() && (#[trigger] order[j]).0 == p;
                assert(ids[j] == p);
                assert(ids.contains(p));
            }
        }
        assert(range =~= Set::new(|p: int| 0 <= p < n));
        lemma_int_range(0, n as int);
        assert(Set::new(|p: int| 0 <= p < n) =~= vstd::set_lib::set_int_range(0, n as int));
        lemma_len_subset(range, ids.to_set());
        assert(n <= ids.to_set().len());
        assert(false);
    }
}

/// A duplicate-free sequence of `n` passes with ids below `n` contains
/// every pass.
proof fn lemma_full_coverage(order: Seq<PassId>, n: nat)
    requires
        order.no_duplicates(),
        forall|j: int| 0 <= j < order.len() ==> (#[trigger] order[j]).0 < n,
        order.len() == n,
    ensures
        forall|p: int| 0 <= p < n ==> emitted_before(order, n as int, p),
{
    broadcast use vstd::set::group_set_axioms, seq_to_set_is_finite;

    assert forall|p: int| 0 <= p < n implies emitted_before(order, n as int, p) by {
        if !emitted_before(order, n as int, p) {
            let ids = order.map_values(|q: PassId| q.0 as int);
            assert(ids.no_duplicates()) by {
                assert forall|i: int, j: int| 0 <= i < ids.len() && 0 <= j < ids.len() && i != j
                    implies ids[i] != ids[j] by {
                    assert(order[i] != order[j]);
                }
            }
            ids.unique_seq_to_set();
            let range = Set::new(|q: int| 0 <= q < n && q != p);
            assert(ids.to_set().subset_of(range)) by {
                assert forall|x: int| ids.to_set().contains(x) implies range.contains(x) by {
                    let j = choose|j: int| 0 <= j < ids.len() && ids[j] == x;
                    assert(order[j].0 == x);
                    assert(x != p);
                }
            }
            lemma_int_range(0, n as int);
            assert(vstd::set_lib::set_int_range(0, n as int).remove(p) =~= range);
            assert(range.len() == n - 1);
            lemma_len_subset(ids.to_set(), range);
            assert(false);
        }
    }
}

fn falses(n: usize) -> (r: Vec<bool>)
    ensures
        r@.len() == n,
        forall|i: int| 0 <= i < n ==> !r@[i],
{
    let mut v: Vec<bool> = Vec::new();
    while v.len() < n
        invariant
            v@.len() <= n,
            forall|i: int| 0 <= i < v@.len() ==> !v@[i],
        decreases n - v@.len(),
    {
        v.push(false);
    }
    v
}

/// True exactly when every producer of `p` is already marked emitted.
fn pass_ready(p: usize, deps: &Vec<Dependency>, emitted: &Vec<bool>) -> (r: bool)
    requires
        deps_wf(deps@, emitted@.len() as nat),
        p < emitted@.len(),
    ensures
        r == ready_in(deps@, emitted@, p as int),
{
    let mut i: usize = 0;
    while i < deps.len()
        invariant
            deps_wf(deps@, emitted@.len() as nat),
            p < emitted@.len(),
            i <= deps@.len(),
            forall|k: int|
                0 <= k < i && (#[trigger] deps@[k]).end.0 == p ==> emitted@[deps@[k].start.0 as int],
        decreases deps@.len() - i,
    {
        let d = deps[i];
        if d.end.0 == p && !emitted[d.start.0] {
            return false;
        }
        i += 1;
    }
    true
}

/// One emission step of the topological sort preserves its invariants:
/// pushing a ready, unemitted pass keeps the order duplicate-free, keeps the
/// emitted flags mirroring membership, keeps producers ahead of consumers,
/// and, with no dependencies at all, keeps the order the registration order.
proof fn lemma_emit_step(
    deps: Seq<Dependency>,
    n: nat,
    old_order: Seq<PassId>,
    old_emitted: Seq<bool>,
    new_order: Seq<PassId>,
    new_emitted: Seq<bool>,
    pick: usize,
)
    requires
        deps_wf(deps, n),
        old_emitted.len() == n,
        old_order.len() < n,
        forall|j: int| 0 <= j < old_order.len() ==> (#[trigger] old_order[j]).0 < n,
        old_order.no_duplicates(),
        forall|p: int|
            0 <= p < n ==> ((#[trigger] old_emitted[p]) <==> emitted_before(
                old_order,
                old_order.len() as int,
                p,
            )),
        order_respects(deps, old_order),
        pick < n,
        !old_emitted[pick as int],
        ready_in(deps, old_emitted, pick as int),
        forall|q: int|
            0 <= q < pick ==> ((#[trigger] old_emitted[q]) || !ready_in(deps, old_emitted, q)),
        new_order == old_order.push(PassId(pick)),
        new_emitted == old_emitted.update(pick as int, true),
        deps.len() == 0 ==> forall|j: int| 0 <= j < old_order.len() ==> (
        #[trigger] old_order[j]).0 == j,
    ensures
        new_order.len() == old_order.len() + 1,
        forall|j: int| 0 <= j < new_order.len() ==> (#[trigger] new_order[j]).0 < n,
        new_order.no_duplicates(),
        forall|p: int|
            0 <= p < n ==> ((#[trigger] new_emitted[p]) <==> emitted_before(
                new_order,
                new_order.len() as int,
                p,
            )),
        order_respects(deps, new_order),
        deps.len() == 0 ==> forall|j: int| 0 <= j < new_order.len() ==> (
        #[trigger] new_order[j]).0 == j,
{
    let k = old_order.len() as int;
    assert(forall|j: int| 0 <= j < k ==> new_order[j] == old_order[j]);
    assert(new_order[k].0 == pick);
    // the pass was not yet in the order, so no duplicates arise
    assert(!emitted_before(old_order, k, pick as int));
    assert(new_order.no_duplicates()) by {
        assert forall|i: int, j: int|
            0 <= i < new_order.len() && 0 <= j < new_order.len() && i != j
            implies new_order[i] != new_order[j] by {
            if i < k && j < k {
                assert(old_order[i] != old_order[j]);
            } else if i == k && j < k {
                assert(new_order[j].0 != pick);
            } else if j == k && i < k {
                assert(new_order[i].0 != pick);
            }
        }
    }
    // the emitted flags still mirror membership in the order
    assert forall|q: int| 0 <= q < n implies ((#[trigger] new_emitted[q]) <==> emitted_before(
        new_order,
        new_order.len() as int,
        q,
    )) by {
        if q == pick {
            assert(new_order[k].0 == q);
        } else {
            assert(new_emitted[q] == old_emitted[q]);
            if emitted_before(new_order, k + 1, q) {
                let j = choose|j: int| 0 <= j < k + 1 && (#[trigger] new_order[j]).0 == q;
                assert(j < k);
                assert(old_order[j].0 == q);
            }
            if emitted_before(old_order, k, q) {
                let j = choose|j: int| 0 <= j < k && (#[trigger] old_order[j]).0 == q;
                assert(new_order[j].0 == q);
            }
        }
    }
    // producers of everything in the order still stand earlier
    assert(order_respects(deps, new_order)) by {
        assert forall|d: int, i: int|
            0 <= d < deps.len() && 0 <= i < new_order.len() && (#[trigger] new_order[i]).0 == (
            #[trigger] deps[d]).end.0
            implies emitted_before(new_order, i, deps[d].start.0 as int) by {
            let s = deps[d].start.0 as int;
            if i < k {
                assert(emitted_before(old_order, i, s));
                let j = choose|j: int| 0 <= j < i && (#[trigger] old_order[j]).0 == s;
                assert(new_order[j].0 == s);
            } else {
                assert(old_emitted[s]);
                assert(emitted_before(old_order, k, s));
                let j = choose|j: int| 0 <= j < k && (#[trigger] old_order[j]).0 == s;
                assert(new_order[j].0 == s);
            }
        }
    }
    // with no dependencies at all, passes are emitted in registration order
    if deps.len() == 0 {
        assert forall|q: int| 0 <= q < pick implies old_emitted[q] by {
            assert(ready_in(deps, old_emitted, q));
        }
        assert(pick <= k) by {
            if k < pick {
                assert(old_emitted[k]);
                assert(emitted_before(old_order, k, k));
                let j = choose|j: int| 0 <= j < k && (#[trigger] old_order[j]).0 == k;
                assert(old_order[j].0 == j);
            }
        }
        assert(pick >= k) by {
            if pick < k {
                assert(old_order[pick as int].0 == pick);
                assert(emitted_before(old_order, k, pick as int));
            }
        }
        assert(new_order[k].0 == k);
    }
}

/// Collect the passes that never became ready, in increasing id order,
/// together with the valid partial order that was built before the sort got
/// stuck.
fn build_cycle_report(
    n: usize,
    deps: &Vec<Dependency>,
    emitted: &Vec<bool>,
    order: Vec<PassId>,
) -> (r: (Vec<PassId>, Vec<PassId>))
    requires
        deps_wf(deps@, n as nat),
        emitted@.len() == n,
        order@.len() < n,
        forall|j: int| 0 <= j < order@.len() ==> (#[trigger] order@[j]).0 < n,
        order@.no_duplicates(),
        forall|p: int|
            0 <= p < n ==> ((#[trigger] emitted@[p]) <==> emitted_before(
                order@,
                order@.len() as int,
                p,
            )),
        order_respects(deps@, order@),
        forall|p: int| 0 <= p < n && !emitted@[p] ==> !ready_in(deps@, emitted@, p),
    ensures
        cycle_report_ok(deps@, n as nat, r.0@, r.1@),
{
    let mut cycle: Vec<PassId> = Vec::new();
    let mut p: usize = 0;
    while p < n
        invariant
            emitted@.len() == n,
            p <= n,
            forall|j: int|
                0 <= j < cycle@.len() ==> (#[trigger] cycle@[j]).0 < p && !emitted@[cycle@[j].0 as int],
            forall|q: int| 0 <= q < p && !emitted@[q] ==> cycle@.contains(PassId(q as usize)),
            forall|i: int, j: int|
                0 <= i < j < cycle@.len() ==> (#[trigger] cycle@[i]).0 < (#[trigger] cycle@[j]).0,
        decreases n - p,
    {
        if !emitted[p] {
            let ghost old_cycle = cycle@;
            cycle.push(PassId(p));
            proof {
                assert forall|q: int| 0 <= q < p + 1 && !emitted@[q] implies cycle@.contains(
                    PassId(q as usize),
                ) by {
                    if q < p {
                        assert(old_cycle.contains(PassId(q as usize)));
                        let j = choose|j: int|
                            0 <= j < old_cycle.len() && old_cycle[j] == PassId(q as usize);
                        assert(cycle@[j] == PassId(q as usize));
                    } else {
                        assert(cycle@[old_cycle.len() as int] == PassId(q as usize));
                    }
                }
            }
        }
        p += 1;
    }
    proof {
        lemma_report_is_cyclic(deps@, n as nat, emitted@, order@, cycle@);
    }
    (cycle, order)
}

/// Each collected stuck pass waits on a producer that is itself stuck.
proof fn lemma_stuck_certificate(
    deps: Seq<Dependency>,
    n: nat,
    emitted: Seq<bool>,
    cycle: Seq<PassId>,
)
    requires
        deps_wf(deps, n),
        emitted.len() == n,
        forall|p: int| 0 <= p < n && !emitted[p] ==> !ready_in(deps, emitted, p),
        forall|j: int|
            0 <= j < cycle.len() ==> (#[trigger] cycle[j]).0 < n && !emitted[cycle[j].0 as int],
        forall|q: int| 0 <= q < n && !emitted[q] ==> cycle.contains(PassId(q as usize)),
    ensures
        forall|j: int| 0 <= j < cycle.len() ==> #[trigger] waits_inside(deps, cycle, j),
{
    assert forall|j: int| 0 <= j < cycle.len() implies #[trigger] waits_inside(
        deps,
        cycle,
        j,
    ) by {
        let q = cycle[j].0 as int;
        assert(!emitted[q]);
        assert(!ready_in(deps, emitted, q));
        let i = choose|i: int|
            0 <= i < deps.len() && (#[trigger] deps[i]).end.0 == q
                && !emitted[deps[i].start.0 as int];
        assert(deps[i].start == PassId(deps[i].start.0));
        assert(cycle.contains(PassId(deps[i].start.0)));
        assert(0 <= i < deps.len() && deps[i].end == cycle[j] && cycle.contains(deps[i].start));
    }
}

/// Membership in the collected report is exactly non-membership in the
/// partial order, and the report is not empty.
proof fn lemma_stuck_partition(
    n: nat,
    emitted: Seq<bool>,
    order: Seq<PassId>,
    cycle: Seq<PassId>,
)
    requires
        emitted.len() == n,
        order.len() < n,
        forall|j: int| 0 <= j < order.len() ==> (#[trigger] order[j]).0 < n,
        order.no_duplicates(),
        forall|p: int|
            0 <= p < n ==> ((#[trigger] emitted[p]) <==> emitted_before(
                order,
                order.len() as int,
                p,
            )),
        forall|j: int|
            0 <= j < cycle.len() ==> (#[trigger] cycle[j]).0 < n && !emitted[cycle[j].0 as int],
        forall|q: int| 0 <= q < n && !emitted[q] ==> cycle.contains(PassId(q as usize)),
    ensures
        cycle.len() > 0,
        forall|p: int|
            0 <= p < n ==> (cycle.contains(PassId(p as usize)) <==> !emitted_before(
                order,
                order.len() as int,
                p,
            )),
{
    lemma_some_unemitted(order, n);
    let w = choose|w: int| 0 <= w < n && !emitted_before(order, order.len() as int, w);
    assert(!emitted[w]);
    assert(cycle.contains(PassId(w as usize)));
    assert(cycle.len() > 0);
    assert forall|q: int| 0 <= q < n implies (cycle.contains(PassId(q as usize))
        <==> !emitted_before(order, order.len() as int, q)) by {
        if cycle.contains(PassId(q as usize)) {
            let j = choose|j: int| 0 <= j < cycle.len() && cycle[j] == PassId(q as usize);
            assert(!emitted[cycle[j].0 as int]);
        }
        if !emitted_before(order, order.len() as int, q) {
            assert(!emitted[q]);
            assert(cycle.contains(PassId(q as usize)));
        }
    }
}

/// The collected stuck passes form a cycle certificate: the set is nonempty,
/// duplicate-free, complementary to the partial order, and each member waits
/// on a producer inside the set.
#[verifier::rlimit(50)]
proof fn lemma_report_is_cyclic(
    deps: Seq<Dependency>,
    n: nat,
    emitted: Seq<bool>,
    order: Seq<PassId>,
    cycle: Seq<PassId>,
)
    requires
        deps_wf(deps, n),
        emitted.len() == n,
        order.len() < n,
        forall|j: int| 0 <= j < order.len() ==> (#[trigger] order[j]).0 < n,
        order.no_duplicates(),
        forall|p: int|
            0 <= p < n ==> ((#[trigger] emitted[p]) <==> emitted_before(
                order,
                order.len() as int,
                p,
            )),
        order_respects(deps, order),
        forall|p: int| 0 <= p < n && !emitted[p] ==> !ready_in(deps, emitted, p),
        forall|j: int|
            0 <= j < cycle.len() ==> (#[trigger] cycle[j]).0 < n && !emitted[cycle[j].0 as int],
        forall|q: int| 0 <= q < n && !emitted[q] ==> cycle.contains(PassId(q as usize)),
        forall|i: int, j: int|
            0 <= i < j < cycle.len() ==> (#[trigger] cycle[i]).0 < (#[trigger] cycle[j]).0,
    ensures
        cycle_report_ok(deps, n, cycle, order),
{
    assert(cycle.no_duplicates()) by {
        assert forall|i: int, j: int| 0 <= i < cycle.len() && 0 <= j < cycle.len() && i != j
            implies cycle[i] != cycle[j] by {
            if i < j {
                assert(cycle[i].0 < cycle[j].0);
            } else {
                assert(cycle[j].0 < cycle[i].0);
            }
        }
    }
    lemma_stuck_partition(n, emitted, order, cycle);
    lemma_stuck_certificate(deps, n, emitted, cycle);
}

/// Topological sort of the passes `0 .. n` under the dependency set, by
/// repeatedly emitting the lowest-numbered pass whose producers are all
/// emitted. On failure it reports the passes that never became ready
/// together with the partial order built so far.
pub fn topological_order(n: usize, deps: &Vec<Dependency>) -> (r: Result<
    Vec<PassId>,
    (Vec<PassId>, Vec<PassId>),
>)
    requires
        deps_wf(deps@, n as nat),
    ensures
        r is Ok ==> topo_ok(deps@, n as nat, r->Ok_0@),
        r is Err ==> cycle_report_ok(deps@, n as nat, r->Err_0.0@, r->Err_0.1@),
{
    let mut order: Vec<PassId> = Vec::new();
    let mut emitted: Vec<bool> = falses(n);
    let mut stuck = false;
    while order.len() < n && !stuck
        invariant
            deps_wf(deps@, n as nat),
            emitted@.len() == n,
            order@.len() <= n,
            forall|j: int| 0 <= j < order@.len() ==> (#[trigger] order@[j]).0 < n,
            order@.no_duplicates(),
            forall|p: int|
                0 <= p < n ==> ((#[trigger] emitted@[p]) <==> emitted_before(
                    order@,
                    order@.len() as int,
                    p,
                )),
            order_respects(deps@, order@),
            deps@.len() == 0 ==> forall|j: int| 0 <= j < order@.len() ==> (#[trigger] order@[j]).0
                == j,
            stuck ==> order@.len() < n && (forall|p: int|
                0 <= p < n && !emitted@[p] ==> !ready_in(deps@, emitted@, p)),
        decreases n - order@.len(), (if stuck { 0int } else { 1int }),
    {
        let mut p: usize = 0;
        let mut found: Option<usize> = None;
        while p < n && found.is_none()
            invariant
                deps_wf(deps@, n as nat),
                emitted@.len() == n,
                p <= n,
                forall|q: int|
                    0 <= q < p ==> ((#[trigger] emitted@[q]) || !ready_in(deps@, emitted@, q)),
                found is Some ==> found->Some_0 == p && p < n && !emitted@[p as int] && ready_in(
                    deps@,
                    emitted@,
                    p as int,
                ),
            decreases n - p, (if found is None { 1int } else { 0int }),
        {
            if !emitted[p] && pass_ready(p, deps, &emitted) {
                found = Some(p);
            } else {
                p += 1;
            }
        }
        match found {
            Some(pick) => {
                let ghost old_order = order@;
                let ghost old_emitted = emitted@;
                order.push(PassId(pick));
                emitted.set(pick, true);
                proof {
                    lemma_emit_step(deps@, n as nat, old_order, old_emitted, order@, emitted@, pick);
                }
            },
            None => {
                stuck = true;
            },
        }
    }
    if !stuck {
        proof {
            lemma_full_coverage(order@, n as nat);
        }
        Ok(order)
    } else {
        Err(build_cycle_report(n, deps, &emitted, order))
    }
}


/// The two passes are connected by a recorded dependency edge, in either
/// direction.
pub open spec fn ordered_spec(deps: Seq<Dependency>, p: int, q: int) -> bool {
    exists|i: int|
        0 <= i < deps.len() && (((#[trigger] deps[i]).start.0 == p && deps[i].end.0 == q) || (
        deps[i].start.0 == q && deps[i].end.0 == p))
}

/// The two usage declarations touch a common logical resource, at least one
/// of them writing it.
pub open spec fn conflict_spec(a: VirtualResources, b: VirtualResources) -> bool {
    exists|r: ResourceId|
        #![auto]
        (a.writes@.contains(r) && b.touches(r)) || (b.writes@.contains(r) && a.touches(r))
}

fn contains_resource(v: &Vec<ResourceId>, r: ResourceId) -> (found: bool)
    ensures
        found == v@.contains(r),
{
    let mut i: usize = 0;
    while i < v.len()
        invariant
            i <= v@.len(),
            forall|k: int| 0 <= k < i ==> v@[k] != r,
        decreases v@.len() - i,
    {
        if v[i] == r {
            return true;
        }
        i += 1;
    }
    false
}

fn touches_resource(s: &VirtualResources, r: ResourceId) -> (found: bool)
    ensures
        found == s.touches(r),
{
    contains_resource(&s.reads, r) || contains_resource(&s.writes, r)
}

fn setups_conflict(a: &VirtualResources, b: &VirtualResources) -> (found: bool)
    ensures
        found == conflict_spec(*a, *b),
{
    let mut i: usize = 0;
    while i < a.writes.len()
        invariant
            i <= a.writes@.len(),
            forall|k: int| 0 <= k < i ==> !b.touches(#[trigger] a.writes@[k]),
        decreases a.writes@.len() - i,
    {
        if touches_resource(b, a.writes[i]) {
            assert(a.writes@.contains(a.writes@[i as int]));
            return true;
        }
        i += 1;
    }
    let mut j: usize = 0;
    while j < b.writes.len()
        invariant
            j <= b.writes@.len(),
            forall|k: int| 0 <= k < j ==> !a.touches(#[trigger] b.writes@[k]),
            forall|k: int| 0 <= k < a.writes@.len() ==> !b.touches(#[trigger] a.writes@[k]),
        decreases b.writes@.len() - j,
    {
        if touches_resource(a, b.writes[j]) {
            assert(b.writes@.contains(b.writes@[j as int]));
            return true;
        }
        j += 1;
    }
    proof {
        if conflict_spec(*a, *b) {
            let r = choose|r: ResourceId|
                (a.writes@.contains(r) && b.touches(r)) || (b.writes@.contains(r) && a.touches(r));
            if a.writes@.contains(r) && b.touches(r) {
                let k = choose|k: int| 0 <= k < a.writes@.len() && a.writes@[k] == r;
                assert(!b.touches(a.writes@[k]));
            } else {
                let k = choose|k: int| 0 <= k < b.writes@.len() && b.writes@[k] == r;
                assert(!a.touches(b.writes@[k]));
            }
        }
    }
    false
}

fn passes_ordered(deps: &Vec<Dependency>, p: usize, q: usize) -> (found: bool)
    ensures
        found == ordered_spec(deps@, p as int, q as int),
{
    let mut i: usize = 0;
    while i < deps.len()
        invariant
            i <= deps@.len(),
            forall|k: int|
                0 <= k < i ==> !(((#[trigger] deps@[k]).start.0 == p && deps@[k].end.0 == q) || (
                deps@[k].start.0 == q && deps@[k].end.0 == p)),
        decreases deps@.len() - i,
    {
        let d = deps[i];
        if (d.start.0 == p && d.end.0 == q) || (d.start.0 == q && d.end.0 == p) {
            return true;
        }
        i += 1;
    }
    false
}

/// Every pair of passes whose declared usages conflict is synchronized by a
/// dependency edge; the first unsynchronized pair found is reported.
pub fn check_synchronization(deps: &Vec<Dependency>, setups: &Vec<StoredSetup>) -> (r: Option<
    (PassId, PassId),
>)
    ensures
        r is None ==> forall|p: int, q: int|
            0 <= p < q < setups@.len() && conflict_spec(
                (#[trigger] setups@[p]).data,
                (#[trigger] setups@[q]).data,
            ) ==> ordered_spec(deps@, p, q),
        r is Some ==> r->Some_0.0.0 < r->Some_0.1.0 < setups@.len() && conflict_spec(
            setups@[r->Some_0.0.0 as int].data,
            setups@[r->Some_0.1.0 as int].data,
        ) && !ordered_spec(deps@, r->Some_0.0.0 as int, r->Some_0.1.0 as int),
{
    let n = setups.len();
    let mut p: usize = 0;
    while p < n
        invariant
            n == setups@.len(),
            p <= n,
            forall|a: int, b: int|
                0 <= a < p && a < b < n && conflict_spec(
                    (#[trigger] setups@[a]).data,
                    (#[trigger] setups@[b]).data,
                ) ==> ordered_spec(deps@, a, b),
        decreases n - p,
    {
        let mut q: usize = p + 1;
        while q < n
            invariant
                n == setups@.len(),
                p < q || p + 1 == q,
                p < n,
                q <= n,
                p < q,
                forall|a: int, b: int|
                    0 <= a < p && a < b < n && conflict_spec(
                        (#[trigger] setups@[a]).data,
                        (#[trigger] setups@[b]).data,
                    ) ==> ordered_spec(deps@, a, b),
                forall|b: int|
                    p < b < q && conflict_spec(
                        setups@[p as int].data,
                        (#[trigger] setups@[b]).data,
                    ) ==> ordered_spec(deps@, p as int, b),
            decreases n - q,
        {
            if setups_conflict(&setups[p].data, &setups[q].data) && !passes_ordered(deps, p, q) {
                return Some((PassId(p), PassId(q)));
            }
            q += 1;
        }
        p += 1;
    }
    None
}

/// The resource is read or written by the pass standing at position `pos` of
/// the execution order.
pub open spec fn touched_at(
    setups: Seq<StoredSetup>,
    order: Seq<PassId>,
    r: ResourceId,
    pos: int,
) -> bool {
    setups[order[pos].0 as int].data.touches(r)
}

/// Some pass of the order touches the resource.
pub open spec fn touched_somewhere(
    setups: Seq<StoredSetup>,
    order: Seq<PassId>,
    r: ResourceId,
) -> bool {
    exists|pos: int| 0 <= pos < order.len() && #[trigger] touched_at(setups, order, r, pos)
}

/// A live range entry for one logical resource: the first and last positions
/// of the execution order that touch it.
#[derive(Debug, Copy, Clone, PartialEq, Eq, Structural)]
pub struct LiveResource {
    pub resource: ResourceId,
    pub first: usize,
    pub last: usize,
}

/// `lr` is the exact closed live range of its resource within the order.
pub open spec fn live_range_ok(
    setups: Seq<StoredSetup>,
    order: Seq<PassId>,
    lr: LiveResource,
) -> bool {
    &&& lr.first <= lr.last < order.len()
    &&& touched_at(setups, order, lr.resource, lr.first as int)
    &&& touched_at(setups, order, lr.resource, lr.last as int)
    &&& forall|pos: int|
        0 <= pos < order.len() && #[trigger] touched_at(setups, order, lr.resource, pos)
            ==> lr.first <= pos <= lr.last
}

/// Compute the live range of one resource as the closed interval from the
/// first to the last position of the order that reads or writes it.
pub fn live_range(setups: &Vec<StoredSetup>, order: &Vec<PassId>, r: ResourceId) -> (res: Option<
    (usize, usize),
>)
    requires
        forall|j: int| 0 <= j < order@.len() ==> (#[trigger] order@[j]).0 < setups@.len(),
    ensures
        res is None ==> !touched_somewhere(setups@, order@, r),
        res is Some ==> live_range_ok(
            setups@,
            order@,
            (LiveResource { resource: r, first: res->Some_0.0, last: res->Some_0.1 }),
        ),
{
    let mut acc: Option<(usize, usize)> = None;
    let mut pos: usize = 0;
    while pos < order.len()
        invariant
            forall|j: int| 0 <= j < order@.len() ==> (#[trigger] order@[j]).0 < setups@.len(),
            pos <= order@.len(),
            acc is None ==> forall|k: int|
                0 <= k < pos ==> !(#[trigger] touched_at(setups@, order@, r, k)),
            acc is Some ==> acc->Some_0.0 <= acc->Some_0.1 < pos && touched_at(
                setups@,
                order@,
                r,
                acc->Some_0.0 as int,
            ) && touched_at(setups@, order@, r, acc->Some_0.1 as int) && forall|k: int|
                0 <= k < pos && #[trigger] touched_at(setups@, order@, r, k) ==> acc->Some_0.0 <= k
                    <= acc->Some_0.1,
        decreases order@.len() - pos,
    {
        let pass = order[pos];
        if touches_resource(&setups[pass.0].data, r) {
            assert(touched_at(setups@, order@, r, pos as int));
            acc = match acc {
                None => Some((pos, pos)),
                Some((f, _)) => Some((f, pos)),
            };
        }
        pos += 1;
    }
    acc
}

/// A physical slot chosen for one logical resource, together with its live
/// range. Slots are numbered independently for each resource kind.
#[derive(Debug, Copy, Clone, PartialEq, Eq, Structural)]
pub struct SlotAssignment {
    pub resource: ResourceId,
    pub slot: usize,
    pub first: usize,
    pub last: usize,
}

/// The two closed ranges share at least one position.
pub open spec fn ranges_overlap(af: int, al: int, bf: int, bl: int) -> bool {
    !(al < bf || bl < af)
}

/// Slot `s` is already taken by an assignment of the same kind whose live
/// range overlaps the candidate `c`.
pub open spec fn slot_used_for(out: Seq<SlotAssignment>, c: LiveResource, s: int) -> bool {
    exists|i: int|
        0 <= i < out.len() && (#[trigger] out[i]).resource.kind == c.resource.kind
            && ranges_overlap(
            out[i].first as int,
            out[i].last as int,
            c.first as int,
            c.last as int,
        ) && out[i].slot == s
}

/// Entry `j` received the smallest slot not taken by any earlier entry of
/// the same kind with an overlapping live range.
pub open spec fn first_fit_at(out: Seq<SlotAssignment>, j: int) -> bool {
    &&& !slot_used_for(
        out.take(j),
        (LiveResource { resource: out[j].resource, first: out[j].first, last: out[j].last }),
        out[j].slot as int,
    )
    &&& forall|s: int|
        0 <= s < out[j].slot ==> slot_used_for(
            out.take(j),
            (LiveResource { resource: out[j].resource, first: out[j].first, last: out[j].last }),
            s,
        )
}

fn slot_used(out: &Vec<SlotAssignment>, c: LiveResource, s: usize) -> (found: bool)
    ensures
        found == slot_used_for(out@, c, s as int),
{
    let mut i: usize = 0;
    while i < out.len()
        invariant
            i <= out@.len(),
            forall|k: int|
                0 <= k < i ==> !((#[trigger] out@[k]).resource.kind == c.resource.kind
                    && ranges_overlap(
                    out@[k].first as int,
                    out@[k].last as int,
                    c.first as int,
                    c.last as int,
                ) && out@[k].slot == s),
        decreases out@.len() - i,
    {
        let a = out[i];
        if a.resource.kind == c.resource.kind && !(a.last < c.first || c.last < a.first) && a.slot
            == s {
            return true;
        }
        i += 1;
    }
    false
}

/// Greedy aliasing: hand each candidate, in turn, the smallest physical slot
/// whose earlier occupants of the same kind all have disjoint live ranges.
/// Candidates with overlapping ranges therefore never share a slot, and a
/// candidate reuses slot 0 whenever nothing of its kind overlaps it.
pub fn assign_slots(cands: &Vec<LiveResource>) -> (out: Vec<SlotAssignment>)
    ensures
        out@.len() == cands@.len(),
        forall|j: int|
            0 <= j < out@.len() ==> (#[trigger] out@[j]).resource == cands@[j].resource
                && out@[j].first == cands@[j].first && out@[j].last == cands@[j].last,
        forall|j: int| 0 <= j < out@.len() ==> #[trigger] first_fit_at(out@, j),
        forall|j: int| 0 <= j < out@.len() ==> (#[trigger] out@[j]).slot <= j,
{
    let mut out: Vec<SlotAssignment> = Vec::new();
    let mut j: usize = 0;
    while j < cands.len()
        invariant
            j == out@.len(),
            j <= cands@.len(),
            forall|k: int|
                0 <= k < j ==> (#[trigger] out@[k]).resource == cands@[k].resource && out@[k].first
                    == cands@[k].first && out@[k].last == cands@[k].last,
            forall|k: int| 0 <= k < j ==> #[trigger] first_fit_at(out@, k),
            forall|k: int| 0 <= k < j ==> (#[trigger] out@[k]).slot <= k,
        decreases cands@.len() - j,
    {
        let c = cands[j];
        let mut s: usize = 0;
        while s < out.len() && slot_used(&out, c, s)
            invariant
                s <= out@.len(),
                forall|t: int| 0 <= t < s ==> slot_used_for(out@, c, t),
            decreases out@.len() - s,
        {
            s += 1;
        }
        proof {
            if s == out@.len() {
                if slot_used_for(out@, c, s as int) {
                    let i = choose|i: int|
                        0 <= i < out@.len() && (#[trigger] out@[i]).resource.kind
                            == c.resource.kind && ranges_overlap(
                            out@[i].first as int,
                            out@[i].last as int,
                            c.first as int,
                            c.last as int,
                        ) && out@[i].slot == s;
                    assert(out@[i].slot <= i);
                    assert(false);
                }
            }
        }
        let ghost old_out = out@;
        out.push(SlotAssignment { resource: c.resource, slot: s, first: c.first, last: c.last });
        proof {
            assert(out@.take(j as int) =~= old_out);
            assert(first_fit_at(out@, j as int));
            assert forall|k: int| 0 <= k < j implies #[trigger] first_fit_at(out@, k) by {
                assert(first_fit_at(old_out, k));
                assert(out@.take(k) =~= old_out.take(k));
                assert(out@[k] == old_out[k]);
            }
        }
        j += 1;
    }
    out
}


/// Some entry of `out` between `lo` and `hi` stands for the resource `r`.
pub open spec fn listed_between(out: Seq<LiveResource>, lo: int, hi: int, r: ResourceId) -> bool {
    exists|j: int| lo <= j < hi && (#[trigger] out[j]).resource == r
}

/// Append, for every resource of the given kind and the current frame that
/// some pass touches, its live range entry, in increasing index order.
pub fn collect_kind(
    kind: ResourceKind,
    count: usize,
    setups: &Vec<StoredSetup>,
    order: &Vec<PassId>,
    out: &mut Vec<LiveResource>,
)
    requires
        forall|j: int| 0 <= j < order@.len() ==> (#[trigger] order@[j]).0 < setups@.len(),
    ensures
        final(out)@.len() >= old(out)@.len(),
        forall|j: int| 0 <= j < old(out)@.len() ==> final(out)@[j] == old(out)@[j],
        forall|j: int|
            old(out)@.len() <= j < final(out)@.len() ==> (#[trigger] final(out)@[j]).resource.kind
                == kind && final(out)@[j].resource.frame == 0 && final(out)@[j].resource.index
                < count && live_range_ok(setups@, order@, final(out)@[j]),
        forall|i: int, j: int|
            old(out)@.len() <= i < j < final(out)@.len() ==> (
            #[trigger] final(out)@[i]).resource.index < (#[trigger] final(out)@[j]).resource.index,
        forall|rid: ResourceId|
            rid.kind == kind && rid.frame == 0 && rid.index < count ==> ((
            #[trigger] listed_between(
                final(out)@,
                old(out)@.len() as int,
                final(out)@.len() as int,
                rid,
            )) <==> touched_somewhere(setups@, order@, rid)),
{
    let ghost base = out@.len();
    let mut idx: usize = 0;
    while idx < count
        invariant
            forall|j: int| 0 <= j < order@.len() ==> (#[trigger] order@[j]).0 < setups@.len(),
            idx <= count,
            out@.len() >= base,
            forall|j: int| 0 <= j < base ==> out@[j] == old(out)@[j],
            forall|j: int|
                base <= j < out@.len() ==> (#[trigger] out@[j]).resource.kind == kind
                    && out@[j].resource.frame == 0 && out@[j].resource.index < idx
                    && live_range_ok(setups@, order@, out@[j]),
            forall|i: int, j: int|
                base <= i < j < out@.len() ==> (#[trigger] out@[i]).resource.index < (
                #[trigger] out@[j]).resource.index,
            forall|rid: ResourceId|
                rid.kind == kind && rid.frame == 0 && rid.index < idx ==> ((
                #[trigger] listed_between(out@, base as int, out@.len() as int, rid))
                    <==> touched_somewhere(setups@, order@, rid)),
        decreases count - idx,
    {
        let r = ResourceId { kind, index: idx, frame: 0 };
        let ghost pre = out@;
        match live_range(setups, order, r) {
            Some((f, l)) => {
                out.push(LiveResource { resource: r, first: f, last: l });
                proof {
                    assert(out@[pre.len() as int].resource == r);
                    assert forall|rid: ResourceId|
                        rid.kind == kind && rid.frame == 0 && rid.index < idx + 1 implies ((
                    #[trigger] listed_between(out@, base as int, out@.len() as int, rid))
                        <==> touched_somewhere(setups@, order@, rid)) by {
                        if rid.index < idx {
                            if listed_between(pre, base as int, pre.len() as int, rid) {
                                let j = choose|j: int|
                                    base <= j < pre.len() && (#[trigger] pre[j]).resource == rid;
                                assert(out@[j].resource == rid);
                            }
                            if listed_between(out@, base as int, out@.len() as int, rid) {
                                let j = choose|j: int|
                                    base <= j < out@.len() && (#[trigger] out@[j]).resource
                                        == rid;
                                assert(j < pre.len());
                                assert(pre[j].resource == rid);
                            }
                        } else {
                            assert(rid == r);
                            assert(listed_between(out@, base as int, out@.len() as int, rid));
                            assert(touched_at(setups@, order@, rid, f as int));
                        }
                    }
                }
            },
            None => {
                proof {
                    assert forall|rid: ResourceId|
                        rid.kind == kind && rid.frame == 0 && rid.index < idx + 1 implies ((
                    #[trigger] listed_between(out@, base as int, out@.len() as int, rid))
                        <==> touched_somewhere(setups@, order@, rid)) by {
                        if rid.index == idx {
                            assert(rid == r);
                            if listed_between(out@, base as int, out@.len() as int, rid) {
                                let j = choose|j: int|
                                    base <= j < out@.len() && (#[trigger] out@[j]).resource
                                        == rid;
                                assert(out@[j].resource.index < idx);
                            }
                        }
                    }
                }
            },
        }
        idx += 1;
    }
}


/// No two entries stand for the same resource.
pub open spec fn distinct_candidates(s: Seq<LiveResource>) -> bool {
    forall|i: int, j: int|
        0 <= i < j < s.len() ==> (#[trigger] s[i]).resource != (#[trigger] s[j]).resource
}

/// Stable insertion sort of the candidate list by live-range start, so that
/// the greedy allocator hands out slots in the order the resources come
/// alive. The entries are rearranged, none added or dropped.
pub fn sort_candidates(v: &mut Vec<LiveResource>)
    requires
        distinct_candidates(old(v)@),
    ensures
        final(v)@.len() == old(v)@.len(),
        forall|i: int, j: int|
            0 <= i < j < final(v)@.len() ==> (#[trigger] final(v)@[i]).first <= (
            #[trigger] final(v)@[j]).first,
        forall|k: int| 0 <= k < final(v)@.len() ==> old(v)@.contains(#[trigger] final(v)@[k]),
        forall|k: int| 0 <= k < old(v)@.len() ==> final(v)@.contains(#[trigger] old(v)@[k]),
        distinct_candidates(final(v)@),
{
    let n = v.len();
    proof {
        assert forall|k: int| 0 <= k < v@.len() implies v@.contains(#[trigger] v@[k]) by {}
    }
    let mut i: usize = 1;
    while i < n
        invariant
            n == v@.len(),
            n == old(v)@.len(),
            i >= 1,
            forall|a: int, b: int|
                0 <= a < b < i ==> (#[trigger] v@[a]).first <= (#[trigger] v@[b]).first,
            forall|k: int| 0 <= k < v@.len() ==> old(v)@.contains(#[trigger] v@[k]),
            forall|k: int| 0 <= k < old(v)@.len() ==> v@.contains(#[trigger] old(v)@[k]),
            distinct_candidates(v@),
        decreases n - i,
    {
        let mut j: usize = i;
        while j > 0 && v[j - 1].first > v[j].first
            invariant
                n == v@.len(),
                n == old(v)@.len(),
                j <= i < n,
                forall|a: int, b: int|
                    0 <= a < b <= i && b != j ==> (#[trigger] v@[a]).first <= (
                    #[trigger] v@[b]).first,
                forall|a: int| j < a <= i ==> (#[trigger] v@[a]).first >= v@[j as int].first,
                forall|k: int| 0 <= k < v@.len() ==> old(v)@.contains(#[trigger] v@[k]),
                forall|k: int| 0 <= k < old(v)@.len() ==> v@.contains(#[trigger] old(v)@[k]),
                distinct_candidates(v@),
            decreases j,
        {
            let ghost pre = v@;
            let x = v[j - 1];
            let y = v[j];
            v.set(j - 1, y);
            v.set(j, x);
            proof {
                assert(v@[j - 1] == pre[j as int]);
                assert(v@[j as int] == pre[j - 1]);
                assert(forall|k: int| 0 <= k < v@.len() && k != j - 1 && k != j ==> v@[k] == pre[k]);
                assert forall|k: int| 0 <= k < v@.len() implies old(v)@.contains(
                    #[trigger] v@[k],
                ) by {
                    if k == j - 1 {
                        assert(old(v)@.contains(pre[j as int]));
                    } else if k == j {
                        assert(old(v)@.contains(pre[j - 1]));
                    } else {
                        assert(old(v)@.contains(pre[k]));
                    }
                }
                assert forall|k: int| 0 <= k < old(v)@.len() implies v@.contains(
                    #[trigger] old(v)@[k],
                ) by {
                    assert(pre.contains(old(v)@[k]));
                    let w = choose|w: int| 0 <= w < pre.len() && pre[w] == old(v)@[k];
                    if w == j - 1 {
                        assert(v@[j as int] == old(v)@[k]);
                    } else if w == j {
                        assert(v@[j - 1] == old(v)@[k]);
                    } else {
                        assert(v@[w] == old(v)@[k]);
                    }
                }
                assert(distinct_candidates(v@)) by {
                    assert forall|a: int, b: int| 0 <= a < b < v@.len() implies (
                    #[trigger] v@[a]).resource != (#[trigger] v@[b]).resource by {
                        let a2: int = if a == j - 1 { j as int } else if a == j { j - 1 } else { a };
                        let b2: int = if b == j - 1 { j as int } else if b == j { j - 1 } else { b };
                        assert(v@[a] == pre[a2]);
                        assert(v@[b] == pre[b2]);
                        assert(a2 != b2);
                        if a2 < b2 {
                            assert(pre[a2].resource != pre[b2].resource);
                        } else {
                            assert(pre[b2].resource != pre[a2].resource);
                        }
                    }
                }
            }
            j -= 1;
        }
        i += 1;
    }
}

/// Some assignment of `s` stands for the resource `r`.
pub open spec fn listed_assignment(s: Seq<SlotAssignment>, r: ResourceId) -> bool {
    exists|i: int| 0 <= i < s.len() && (#[trigger] s[i]).resource == r
}

/// No two assignments stand for the same resource.
pub open spec fn distinct_assignments(s: Seq<SlotAssignment>) -> bool {
    forall|i: int, j: int|
        0 <= i < j < s.len() ==> (#[trigger] s[i]).resource != (#[trigger] s[j]).resource
}

/// Find the assignment standing for `r`, unique when the assignments are
/// distinct.
pub fn find_assignment(s: &Vec<SlotAssignment>, r: ResourceId) -> (res: Option<SlotAssignment>)
    ensures
        res is Some <==> listed_assignment(s@, r),
        res is Some ==> s@.contains(res->Some_0) && res->Some_0.resource == r,
        res is Some && distinct_assignments(s@) ==> forall|k: int|
            0 <= k < s@.len() && (#[trigger] s@[k]).resource == r ==> s@[k] == res->Some_0,
{
    let mut i: usize = 0;
    while i < s.len()
        invariant
            i <= s@.len(),
            forall|k: int| 0 <= k < i ==> (#[trigger] s@[k]).resource != r,
        decreases s@.len() - i,
    {
        let a = s[i];
        if a.resource == r {
            proof {
                assert(s@[i as int].resource == r);
                assert(s@.contains(s@[i as int]));
                if distinct_assignments(s@) {
                    let found = s@[i as int];
                    assert forall|k: int|
                        0 <= k < s@.len() && (#[trigger] s@[k]).resource == r implies s@[k]
                        == found by {
                        if k < i {
                        } else if k > i {
                        }
                    }
                }
            }
            return Some(a);
        }
        i += 1;
    }
    None
}

/// A logical reference declared by a pass is valid: at the current frame it
/// must be in the resource table; at the previous frame it must have been
/// assigned a slot by the previous graph; other frames are out of range.
pub open spec fn ref_ok(table: LogicalResources, prev: Seq<SlotAssignment>, r: ResourceId) -> bool {
    if r.frame == 0 {
        r.index < table.count_of(r.kind)
    } else if r.frame == -1 {
        listed_assignment(prev, (ResourceId { kind: r.kind, index: r.index, frame: 0 }))
    } else {
        false
    }
}

/// Every reference of the usage declaration is valid.
pub open spec fn setup_refs_ok(
    table: LogicalResources,
    prev: Seq<SlotAssignment>,
    v: VirtualResources,
) -> bool {
    &&& forall|k: int| 0 <= k < v.reads@.len() ==> ref_ok(table, prev, #[trigger] v.reads@[k])
    &&& forall|k: int| 0 <= k < v.writes@.len() ==> ref_ok(table, prev, #[trigger] v.writes@[k])
}

/// Every reference of every stored setup is valid.
pub open spec fn all_refs_ok(
    table: LogicalResources,
    prev: Seq<SlotAssignment>,
    setups: Seq<StoredSetup>,
) -> bool {
    forall|i: int| 0 <= i < setups.len() ==> setup_refs_ok(table, prev, (#[trigger] setups[i]).data)
}

fn check_ref(table: &LogicalResources, prev: &Vec<SlotAssignment>, r: ResourceId) -> (ok: bool)
    ensures
        ok == ref_ok(*table, prev@, r),
{
    if r.frame == 0 {
        let count = match r.kind {
            ResourceKind::Buffer => table.buffers.len(),
            ResourceKind::BufferView => table.buffer_views.len(),
            ResourceKind::Image => table.images.len(),
            ResourceKind::ImageView => table.image_views.len(),
        };
        r.index < count
    } else if r.frame == -1 {
        find_assignment(prev, ResourceId { kind: r.kind, index: r.index, frame: 0 }).is_some()
    } else {
        false
    }
}

fn check_ref_list(table: &LogicalResources, prev: &Vec<SlotAssignment>, v: &Vec<ResourceId>) -> (ok:
    bool)
    ensures
        ok == forall|k: int| 0 <= k < v@.len() ==> ref_ok(*table, prev@, #[trigger] v@[k]),
{
    let mut k: usize = 0;
    while k < v.len()
        invariant
            k <= v@.len(),
            forall|t: int| 0 <= t < k ==> ref_ok(*table, prev@, #[trigger] v@[t]),
        decreases v@.len() - k,
    {
        if !check_ref(table, prev, v[k]) {
            return false;
        }
        k += 1;
    }
    true
}

/// Check that every logical handle used by any pass was created in this
/// builder (or carried over from the previous frame's graph).
pub fn validate_refs(
    table: &LogicalResources,
    prev: &Vec<SlotAssignment>,
    setups: &Vec<StoredSetup>,
) -> (ok: bool)
    ensures
        ok == all_refs_ok(*table, prev@, setups@),
{
    let mut i: usize = 0;
    while i < setups.len()
        invariant
            i <= setups@.len(),
            forall|t: int|
                0 <= t < i ==> setup_refs_ok(*table, prev@, (#[trigger] setups@[t]).data),
        decreases setups@.len() - i,
    {
        if !check_ref_list(table, prev, &setups[i].data.reads) {
            return false;
        }
        if !check_ref_list(table, prev, &setups[i].data.writes) {
            return false;
        }
        i += 1;
    }
    true
}

} // verus!
