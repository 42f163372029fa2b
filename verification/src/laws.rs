//! Laws of the frame graph, stated and proved against the contracts of the
//! builder, the compiler and the aliasing algorithm.

use vstd::prelude::*;

use crate::builder::compile_err;
use crate::builder::compile_ok;
use crate::builder::compile_post;
use crate::builder::FrameGraphBuilder;
use crate::compile::conflict_spec;
use crate::compile::cycle_report_ok;
use crate::compile::emitted_before;
use crate::compile::first_fit_at;
use crate::compile::order_respects;
use crate::compile::ranges_overlap;
use crate::compile::slot_used_for;
use crate::compile::topo_ok;
use crate::compile::waits_inside;
use crate::compile::LiveResource;
use crate::compile::SlotAssignment;
use crate::graph::FrameGraph;
use crate::types::Dependency;
use crate::types::FrameGraphError;
use crate::types::PassId;

verus! {

/// The position of pass `p` in an execution order.
pub open spec fn position_of(order: Seq<PassId>, p: int) -> int {
    choose|j: int| 0 <= j < order.len() && (#[trigger] order[j]).0 == p
}

/// The index following `i` around a cycle of the given length.
pub open spec fn next_index(i: int, len: int) -> int {
    if i + 1 == len {
        0
    } else {
        i + 1
    }
}

/// The dependency set has an edge from pass `i` of the cycle to the pass
/// that follows it around the cycle.
pub open spec fn edge_to_next(deps: Seq<Dependency>, cycle: Seq<PassId>, i: int) -> bool {
    exists|di: int|
        0 <= di < deps.len() && (#[trigger] deps[di]).start == cycle[i] && deps[di].end == cycle[
            next_index(i, cycle.len() as int)]
}

/// The dependency set contains every consecutive edge of the cycle.
pub open spec fn cycle_in_deps(deps: Seq<Dependency>, cycle: Seq<PassId>) -> bool {
    forall|i: int| 0 <= i < cycle.len() ==> #[trigger] edge_to_next(deps, cycle, i)
}

/// In a duplicate-free order that respects the dependency set, a producer
/// that is present stands strictly before its consumer.
proof fn lemma_dep_orders(deps: Seq<Dependency>, order: Seq<PassId>, di: int)
    requires
        order_respects(deps, order),
        order.no_duplicates(),
        0 <= di < deps.len(),
        emitted_before(order, order.len() as int, deps[di].end.0 as int),
    ensures
        emitted_before(order, order.len() as int, deps[di].start.0 as int),
        position_of(order, deps[di].start.0 as int) < position_of(order, deps[di].end.0 as int),
        0 <= position_of(order, deps[di].start.0 as int) < order.len(),
        0 <= position_of(order, deps[di].end.0 as int) < order.len(),
{
    let e = deps[di].end.0 as int;
    let s = deps[di].start.0 as int;
    let pe = position_of(order, e);
    assert(0 <= pe < order.len() && order[pe].0 == e);
    assert(emitted_before(order, pe, s));
    let j = choose|j: int| 0 <= j < pe && (#[trigger] order[j]).0 == s;
    assert(emitted_before(order, order.len() as int, s));
    let ps = position_of(order, s);
    assert(0 <= ps < order.len() && order[ps].0 == s);
    assert(ps == j) by {
        if ps != j {
            assert(order[ps] != order[j]);
        }
    }
}

/// Walking the cycle forward through a respecting order only increases the
/// position.
proof fn lemma_cycle_chain(deps: Seq<Dependency>, order: Seq<PassId>, cycle: Seq<PassId>, k: int)
    requires
        order_respects(deps, order),
        order.no_duplicates(),
        cycle_in_deps(deps, cycle),
        cycle.len() >= 2,
        forall|i: int|
            0 <= i < cycle.len() ==> emitted_before(
                order,
                order.len() as int,
                (#[trigger] cycle[i]).0 as int,
            ),
        1 <= k < cycle.len(),
    ensures
        position_of(order, cycle[0].0 as int) < position_of(order, cycle[k].0 as int),
    decreases k,
{
    assert(edge_to_next(deps, cycle, k - 1));
    let di = choose|di: int|
        0 <= di < deps.len() && (#[trigger] deps[di]).start == cycle[k - 1] && deps[di].end
            == cycle[next_index(k - 1, cycle.len() as int)];
    assert(deps[di].end == cycle[k]);
    lemma_dep_orders(deps, order, di);
    if k > 1 {
        lemma_cycle_chain(deps, order, cycle, k - 1);
    }
}

/// No execution order that respects the dependency set can contain every
/// pass of a dependency cycle of length at least two.
pub proof fn lemma_cycle_unschedulable(deps: Seq<Dependency>, order: Seq<PassId>, cycle: Seq<PassId>)
    requires
        order_respects(deps, order),
        order.no_duplicates(),
        cycle.len() >= 2,
        forall|i: int|
            0 <= i < cycle.len() ==> emitted_before(
                order,
                order.len() as int,
                (#[trigger] cycle[i]).0 as int,
            ),
    ensures
        !cycle_in_deps(deps, cycle),
{
    if cycle_in_deps(deps, cycle) {
        let last = cycle.len() as int - 1;
        lemma_cycle_chain(deps, order, cycle, last);
        assert(edge_to_next(deps, cycle, last));
        let di = choose|di: int|
            0 <= di < deps.len() && (#[trigger] deps[di]).start == cycle[last] && deps[di].end
                == cycle[next_index(last, cycle.len() as int)];
        assert(deps[di].end == cycle[0]);
        lemma_dep_orders(deps, order, di);
    }
}

/// Law: a builder with no declared dependencies, whose passes share no
/// resource without synchronization and whose references are all valid,
/// compiles, and the execution order is exactly the registration order.
pub proof fn lemma_no_dependencies_compiles_in_order(
    b: FrameGraphBuilder,
    prev: Seq<SlotAssignment>,
    r: Result<FrameGraph, FrameGraphError>,
)
    requires
        b.wf(),
        b.dependencies@.len() == 0,
        crate::compile::all_refs_ok(b.logical_resources, prev, b.data_storage.data@),
        forall|p: int, q: int|
            0 <= p < q < b.data_storage.data@.len() ==> !conflict_spec(
                (#[trigger] b.data_storage.data@[p]).data,
                (#[trigger] b.data_storage.data@[q]).data,
            ),
        compile_post(b, prev, r),
    ensures
        r is Ok,
        r->Ok_0.order@.len() == b.passes@.len(),
        forall|j: int| 0 <= j < r->Ok_0.order@.len() ==> (#[trigger] r->Ok_0.order@[j]).0 == j,
{
    if r is Err {
        let e = r->Err_0;
        assert(compile_err(b, prev, e));
        if e is CyclicDependency {
            let cycle = e->CyclicDependency_0@;
            let partial = choose|pp: Seq<PassId>|
                cycle_report_ok(b.dependencies@, b.passes@.len() as nat, cycle, pp);
            assert(cycle.len() > 0);
            assert(waits_inside(b.dependencies@, cycle, 0));
            let di = choose|di: int|
                0 <= di < b.dependencies@.len() && (#[trigger] b.dependencies@[di]).end == cycle[0]
                    && cycle.contains(b.dependencies@[di].start);
            assert(false);
        } else if e is UnsynchronizedAccess {
            assert(false);
        } else {
            assert(false);
        }
    }
}

/// Law: when the dependency set contains a cycle of length at least two,
/// compilation with valid references fails with `CyclicDependency`.
pub proof fn lemma_cyclic_dependencies_rejected(
    b: FrameGraphBuilder,
    prev: Seq<SlotAssignment>,
    cycle: Seq<PassId>,
    r: Result<FrameGraph, FrameGraphError>,
)
    requires
        b.wf(),
        crate::compile::all_refs_ok(b.logical_resources, prev, b.data_storage.data@),
        cycle.len() >= 2,
        forall|i: int| 0 <= i < cycle.len() ==> (#[trigger] cycle[i]).0 < b.passes@.len(),
        cycle_in_deps(b.dependencies@, cycle),
        compile_post(b, prev, r),
    ensures
        r is Err,
        r->Err_0 is CyclicDependency,
{
    let n = b.passes@.len() as nat;
    if r is Ok {
        let g = r->Ok_0;
        assert(compile_ok(b, prev, g));
        assert(topo_ok(b.dependencies@, n, g.order@));
        assert forall|i: int|
            0 <= i < cycle.len() implies emitted_before(
            g.order@,
            g.order@.len() as int,
            (#[trigger] cycle[i]).0 as int,
        ) by {
            assert(emitted_before(g.order@, n as int, cycle[i].0 as int));
        }
        lemma_cycle_unschedulable(b.dependencies@, g.order@, cycle);
    } else if r->Err_0 is UnsynchronizedAccess {
        assert(compile_err(b, prev, r->Err_0));
        let order = choose|oo: Seq<PassId>| topo_ok(b.dependencies@, n, oo);
        assert forall|i: int|
            0 <= i < cycle.len() implies emitted_before(
            order,
            order.len() as int,
            (#[trigger] cycle[i]).0 as int,
        ) by {
            assert(emitted_before(order, n as int, cycle[i].0 as int));
        }
        lemma_cycle_unschedulable(b.dependencies@, order, cycle);
    } else if r->Err_0 is UnknownResourceReference {
        assert(compile_err(b, prev, r->Err_0));
        assert(false);
    }
}

/// Law: when every dependency's consumer lies on the given cycle, every
/// pass of a `CyclicDependency` report lies on it too.
pub proof fn lemma_cycle_report_within_cycle(
    b: FrameGraphBuilder,
    prev: Seq<SlotAssignment>,
    cycle: Seq<PassId>,
    r: Result<FrameGraph, FrameGraphError>,
)
    requires
        forall|di: int|
            0 <= di < b.dependencies@.len() ==> cycle.contains(
                (#[trigger] b.dependencies@[di]).end,
            ),
        compile_post(b, prev, r),
        r is Err,
        r->Err_0 is CyclicDependency,
    ensures
        forall|v: PassId|
            r->Err_0->CyclicDependency_0@.contains(v) ==> #[trigger] cycle.contains(v),
{
    let reported = r->Err_0->CyclicDependency_0@;
    assert(compile_err(b, prev, r->Err_0));
    let partial = choose|pp: Seq<PassId>|
        cycle_report_ok(b.dependencies@, b.passes@.len() as nat, reported, pp);
    assert forall|v: PassId| reported.contains(v) implies #[trigger] cycle.contains(v) by {
        let j = choose|j: int| 0 <= j < reported.len() && reported[j] == v;
        assert(waits_inside(b.dependencies@, reported, j));
        let di = choose|di: int|
            0 <= di < b.dependencies@.len() && (#[trigger] b.dependencies@[di]).end == reported[j]
                && reported.contains(b.dependencies@[di].start);
        assert(cycle.contains(b.dependencies@[di].end));
    }
}

/// Law: two assignments of the same kind whose live ranges overlap never
/// share a physical slot.
pub proof fn lemma_overlapping_never_alias(g: FrameGraph, i: int, j: int)
    requires
        g.wf(),
        0 <= i < j < g.assignments@.len(),
        g.assignments@[i].resource.kind == g.assignments@[j].resource.kind,
        ranges_overlap(
            g.assignments@[i].first as int,
            g.assignments@[i].last as int,
            g.assignments@[j].first as int,
            g.assignments@[j].last as int,
        ),
    ensures
        g.assignments@[i].slot != g.assignments@[j].slot,
{
    let asg = g.assignments@;
    assert(first_fit_at(asg, j));
    if asg[i].slot == asg[j].slot {
        assert(asg.take(j)[i] == asg[i]);
        assert(slot_used_for(
            asg.take(j),
            (LiveResource { resource: asg[j].resource, first: asg[j].first, last: asg[j].last }),
            asg[j].slot as int,
        ));
    }
}

/// Law: when exactly two assignments of a kind exist and their live ranges
/// are disjoint, the aliasing algorithm backs both with the same slot.
pub proof fn lemma_disjoint_pair_aliases(g: FrameGraph, i: int, j: int)
    requires
        g.wf(),
        0 <= i < j < g.assignments@.len(),
        g.assignments@[i].resource.kind == g.assignments@[j].resource.kind,
        !ranges_overlap(
            g.assignments@[i].first as int,
            g.assignments@[i].last as int,
            g.assignments@[j].first as int,
            g.assignments@[j].last as int,
        ),
        forall|k: int|
            0 <= k < g.assignments@.len() && k != i && k != j ==> (
            #[trigger] g.assignments@[k]).resource.kind != g.assignments@[i].resource.kind,
    ensures
        g.assignments@[i].slot == g.assignments@[j].slot,
        g.assignments@[i].slot == 0,
{
    let asg = g.assignments@;
    assert(first_fit_at(asg, i));
    assert(first_fit_at(asg, j));
    if asg[i].slot > 0 {
        assert(slot_used_for(
            asg.take(i),
            (LiveResource { resource: asg[i].resource, first: asg[i].first, last: asg[i].last }),
            0,
        ));
        let k = choose|k: int|
            0 <= k < asg.take(i).len() && (#[trigger] asg.take(i)[k]).resource.kind
                == asg[i].resource.kind && ranges_overlap(
                asg.take(i)[k].first as int,
                asg.take(i)[k].last as int,
                asg[i].first as int,
                asg[i].last as int,
            ) && asg.take(i)[k].slot == 0;
        assert(asg.take(i)[k] == asg[k]);
        assert(false);
    }
    if asg[j].slot > 0 {
        assert(slot_used_for(
            asg.take(j),
            (LiveResource { resource: asg[j].resource, first: asg[j].first, last: asg[j].last }),
            0,
        ));
        let k = choose|k: int|
            0 <= k < asg.take(j).len() && (#[trigger] asg.take(j)[k]).resource.kind
                == asg[j].resource.kind && ranges_overlap(
                asg.take(j)[k].first as int,
                asg.take(j)[k].last as int,
                asg[j].first as int,
                asg[j].last as int,
            ) && asg.take(j)[k].slot == 0;
        assert(asg.take(j)[k] == asg[k]);
        assert(k == i);
        assert(false);
    }
}


/// The index preceding `i` around a cycle of the given length.
pub open spec fn prev_index(i: int, len: int) -> int {
    if i == 0 {
        len - 1
    } else {
        i - 1
    }
}

/// In an order that respects the dependency set, a cycle member that is
/// present drags its predecessor around the cycle in as well.
proof fn lemma_member_pulls_predecessor(
    deps: Seq<Dependency>,
    partial: Seq<PassId>,
    cycle: Seq<PassId>,
    i: int,
)
    requires
        order_respects(deps, partial),
        cycle_in_deps(deps, cycle),
        cycle.len() >= 2,
        0 <= i < cycle.len(),
        emitted_before(partial, partial.len() as int, cycle[i].0 as int),
    ensures
        emitted_before(
            partial,
            partial.len() as int,
            cycle[prev_index(i, cycle.len() as int)].0 as int,
        ),
{
    let len = cycle.len() as int;
    let pi = prev_index(i, len);
    assert(edge_to_next(deps, cycle, pi));
    let di = choose|di: int|
        0 <= di < deps.len() && (#[trigger] deps[di]).start == cycle[pi] && deps[di].end == cycle[
            next_index(pi, len)];
    assert(next_index(pi, len) == i);
    assert(deps[di].end == cycle[i]);
    let j = choose|j: int|
        0 <= j < partial.len() && (#[trigger] partial[j]).0 == cycle[i].0 as int;
    assert(partial[j].0 == deps[di].end.0);
    assert(emitted_before(partial, j, deps[di].start.0 as int));
    let k = choose|k: int| 0 <= k < j && (#[trigger] partial[k]).0 == deps[di].start.0 as int;
    assert(partial[k].0 == cycle[pi].0);
}

/// Walking backwards around the cycle from a present member reaches every
/// member.
proof fn lemma_members_spread(
    deps: Seq<Dependency>,
    partial: Seq<PassId>,
    cycle: Seq<PassId>,
    i: int,
    j: int,
)
    requires
        order_respects(deps, partial),
        cycle_in_deps(deps, cycle),
        cycle.len() >= 2,
        0 <= i < cycle.len(),
        0 <= j < cycle.len(),
        emitted_before(partial, partial.len() as int, cycle[i].0 as int),
    ensures
        emitted_before(partial, partial.len() as int, cycle[j].0 as int),
    decreases (if j <= i {
        i - j
    } else {
        i + cycle.len() - j
    }),
{
    let len = cycle.len() as int;
    if i != j {
        lemma_member_pulls_predecessor(deps, partial, cycle, i);
        let pi = prev_index(i, len);
        assert(pi != i);
        if j <= pi {
            assert((if j <= pi { pi - j } else { pi + len - j }) < (if j <= i { i - j } else { i + len - j }));
        }
        lemma_members_spread(deps, partial, cycle, pi, j);
    }
}

/// Law: when the dependency set holds every edge of a cycle of length at
/// least two, the `CyclicDependency` report lists every pass of the cycle.
pub proof fn lemma_cycle_fully_reported(
    b: FrameGraphBuilder,
    prev: Seq<SlotAssignment>,
    cycle: Seq<PassId>,
    r: Result<FrameGraph, FrameGraphError>,
)
    requires
        b.wf(),
        cycle.len() >= 2,
        forall|i: int| 0 <= i < cycle.len() ==> (#[trigger] cycle[i]).0 < b.passes@.len(),
        cycle_in_deps(b.dependencies@, cycle),
        compile_post(b, prev, r),
        r is Err,
        r->Err_0 is CyclicDependency,
    ensures
        forall|i: int|
            0 <= i < cycle.len() ==> r->Err_0->CyclicDependency_0@.contains(#[trigger] cycle[i]),
{
    let reported = r->Err_0->CyclicDependency_0@;
    assert(compile_err(b, prev, r->Err_0));
    let partial = choose|pp: Seq<PassId>|
        cycle_report_ok(b.dependencies@, b.passes@.len() as nat, reported, pp);
    assert forall|i: int| 0 <= i < cycle.len() implies reported.contains(#[trigger] cycle[i]) by {
        if !reported.contains(cycle[i]) {
            assert(cycle[i] == PassId(cycle[i].0));
            assert(emitted_before(partial, partial.len() as int, cycle[i].0 as int));
            assert forall|j: int|
                0 <= j < cycle.len() implies emitted_before(
                partial,
                partial.len() as int,
                (#[trigger] cycle[j]).0 as int,
            ) by {
                lemma_members_spread(b.dependencies@, partial, cycle, i, j);
            }
            lemma_cycle_unschedulable(b.dependencies@, partial, cycle);
        }
    }
}

} // verus!
