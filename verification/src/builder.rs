//! The frame graph builder: the orchestrating component owning the logical
//! resource table, the queue family registry, the pass data storage and the
//! dependency set during construction, and compiling them into an immutable
//! frame graph.

use vstd::prelude::*;

use crate::compile::all_refs_ok;
use crate::compile::assign_slots;
use crate::compile::check_synchronization;
use crate::compile::collect_kind;
use crate::compile::conflict_spec;
use crate::compile::cycle_report_ok;
use crate::compile::deps_wf;
use crate::compile::distinct_assignments;
use crate::compile::emitted_before;
use crate::compile::listed_assignment;
use crate::compile::listed_between;
use crate::compile::live_range_ok;
use crate::compile::ordered_spec;
use crate::compile::ref_ok;
use crate::compile::setup_refs_ok;
use crate::compile::sort_candidates;
use crate::compile::topo_ok;
use crate::compile::topological_order;
use crate::compile::touched_at;
use crate::compile::touched_somewhere;
use crate::compile::validate_refs;
use crate::compile::LiveResource;
use crate::compile::SlotAssignment;
use crate::graph::FrameGraph;
use crate::graph::PassResources;
use crate::resources::LogicalResources;
use crate::storage::PassDataStorage;
use crate::storage::StoredSetup;
use crate::types::BufferRef;
use crate::types::BufferViewRef;
use crate::types::CapabilitySet;
use crate::types::Dependency;
use crate::types::FamilyId;
use crate::types::Frame;
use crate::types::FrameGraphError;
use crate::types::ImageRef;
use crate::types::ImageViewRef;
use crate::types::PassEntry;
use crate::types::PassId;
use crate::types::QueueId;
use crate::types::ResourceId;
use crate::types::ResourceKind;

verus! {

/// A registered queue family: its capability set, fixed at registration,
/// and its declared number of queues.
#[derive(Debug, Copy, Clone, PartialEq, Eq, Structural)]
pub struct QueueFamily {
    pub capability: CapabilitySet,
    pub queue_count: usize,
}

/// Builder for a logical frame graph.
pub struct FrameGraphBuilder {
    /// Pass specific resource data, type-erased and tagged.
    pub data_storage: PassDataStorage,
    /// Logical resources created so far.
    pub logical_resources: LogicalResources,
    /// Registered families with their capabilities and queue counts.
    pub families: Vec<QueueFamily>,
    /// Registered passes with their queue bindings.
    pub passes: Vec<PassEntry>,
    /// Declared execution dependencies.
    pub dependencies: Vec<Dependency>,
}

/// The queue binding is acceptable for a pass demanding `required`: the
/// family is registered under exactly this capability set, that set covers
/// the requirement, and the queue index lies below the family's queue count.
pub open spec fn pass_binding_ok(
    b: FrameGraphBuilder,
    queue: (FamilyId, QueueId),
    required: CapabilitySet,
) -> bool {
    &&& queue.0.index < b.families@.len()
    &&& b.families@[queue.0.index as int].capability == queue.0.capability
    &&& queue.0.capability.supports_spec(required)
    &&& queue.1 < b.families@[queue.0.index as int].queue_count
}

/// The capability set a graphics pass demands of its queue family.
pub open spec fn graphics_requirement() -> CapabilitySet {
    CapabilitySet { graphics: true, compute: false, transfer: false }
}

/// The capability set a compute pass demands of its queue family.
pub open spec fn compute_requirement() -> CapabilitySet {
    CapabilitySet { graphics: false, compute: true, transfer: false }
}

/// What registering a pass does: on an acceptable binding it stores the
/// erased setup under the setup type's tag, appends the pass entry, and
/// hands back the next sequential pass id; otherwise it rejects the binding
/// and leaves the builder untouched.
pub open spec fn add_pass_post<R: PassResources>(
    old_b: FrameGraphBuilder,
    new_b: FrameGraphBuilder,
    queue: (FamilyId, QueueId),
    required: CapabilitySet,
    setup: R,
    r: Result<PassId, FrameGraphError>,
) -> bool {
    &&& (r is Ok <==> pass_binding_ok(old_b, queue, required))
    &&& (r is Err ==> r->Err_0 is CapabilityMismatch && new_b == old_b)
    &&& (r is Ok ==> {
        &&& r->Ok_0.0 == old_b.passes@.len()
        &&& new_b.passes@.len() == old_b.passes@.len() + 1
        &&& (forall|i: int| 0 <= i < old_b.passes@.len() ==> new_b.passes@[i] == old_b.passes@[i])
        &&& new_b.passes@.last().setup_index == old_b.passes@.len()
        &&& new_b.passes@.last().family == queue.0.index
        &&& new_b.passes@.last().queue == queue.1
        &&& new_b.data_storage.data@.len() == old_b.data_storage.data@.len() + 1
        &&& (forall|i: int|
            0 <= i < old_b.data_storage.data@.len() ==> new_b.data_storage.data@[i]
                == old_b.data_storage.data@[i])
        &&& new_b.data_storage.data@.last().tag == R::tag_spec()
        &&& new_b.data_storage.data@.last().data.reads@ == setup.reads_spec()
        &&& new_b.data_storage.data@.last().data.writes@ == setup.writes_spec()
        &&& R::from_virtual_spec(new_b.data_storage.data@.last().data) == Some(setup)
        &&& new_b.logical_resources == old_b.logical_resources
        &&& new_b.families == old_b.families
        &&& new_b.dependencies == old_b.dependencies
    })
}

/// Every pair of passes whose declared usages conflict is ordered by a
/// recorded dependency edge.
pub open spec fn sync_ok(deps: Seq<Dependency>, setups: Seq<StoredSetup>) -> bool {
    forall|p: int, q: int|
        0 <= p < q < setups.len() && conflict_spec(
            (#[trigger] setups[p]).data,
            (#[trigger] setups[q]).data,
        ) ==> ordered_spec(deps, p, q)
}

/// What a successful compilation guarantees: the graph owns the builder's
/// passes and setups, its order is a topological order of the dependency
/// set (the registration order when no dependencies were declared), all
/// conflicting pass pairs were synchronized, every declared reference was
/// valid, the slot table covers exactly the touched current-frame resources
/// with greedily aliased slots, and every handle any pass declared can be
/// resolved.
pub open spec fn compile_ok(
    b: FrameGraphBuilder,
    prev: Seq<SlotAssignment>,
    g: FrameGraph,
) -> bool {
    &&& g.wf()
    &&& g.setups@ == b.data_storage.data@
    &&& g.passes@ == b.passes@
    &&& g.previous@ == prev
    &&& topo_ok(b.dependencies@, b.passes@.len() as nat, g.order@)
    &&& sync_ok(b.dependencies@, b.data_storage.data@)
    &&& all_refs_ok(b.logical_resources, prev, b.data_storage.data@)
    &&& (forall|r: ResourceId|
        r.frame == 0 && r.index < b.logical_resources.count_of(r.kind) ==> ((
        #[trigger] listed_assignment(g.assignments@, r)) <==> touched_somewhere(
            g.setups@,
            g.order@,
            r,
        )))
    &&& (forall|i: int, r: ResourceId|
        0 <= i < g.setups@.len() && (#[trigger] g.setups@[i].data.touches(r))
            ==> g.resolvable_id(r))
}

/// What each compilation error certifies: an unknown reference means some
/// declared handle was invalid; a cyclic dependency report carries a
/// genuinely stuck set of passes beside a valid partial order of the rest;
/// an unsynchronized access names two conflicting passes with no edge
/// between them.
pub open spec fn compile_err(
    b: FrameGraphBuilder,
    prev: Seq<SlotAssignment>,
    e: FrameGraphError,
) -> bool {
    &&& (e is UnknownResourceReference ==> !all_refs_ok(
        b.logical_resources,
        prev,
        b.data_storage.data@,
    ))
    &&& (e is CyclicDependency ==> all_refs_ok(b.logical_resources, prev, b.data_storage.data@)
        && (exists|partial: Seq<PassId>|
        cycle_report_ok(
            b.dependencies@,
            b.passes@.len() as nat,
            e->CyclicDependency_0@,
            partial,
        )))
    &&& (e is UnsynchronizedAccess ==> (exists|order: Seq<PassId>|
        topo_ok(b.dependencies@, b.passes@.len() as nat, order))
        && e->UnsynchronizedAccess_0.0 < e->UnsynchronizedAccess_1.0
        < b.passes@.len() && conflict_spec(
        b.data_storage.data@[e->UnsynchronizedAccess_0.0 as int].data,
        b.data_storage.data@[e->UnsynchronizedAccess_1.0 as int].data,
    ) && !ordered_spec(
        b.dependencies@,
        e->UnsynchronizedAccess_0.0 as int,
        e->UnsynchronizedAccess_1.0 as int,
    ))
    &&& (e is UnknownResourceReference || e is CyclicDependency || e is UnsynchronizedAccess)
}

/// The full contract of compilation.
pub open spec fn compile_post(
    b: FrameGraphBuilder,
    prev: Seq<SlotAssignment>,
    r: Result<FrameGraph, FrameGraphError>,
) -> bool {
    &&& (r is Ok ==> compile_ok(b, prev, r->Ok_0))
    &&& (r is Err ==> compile_err(b, prev, r->Err_0))
}

impl FrameGraphBuilder {
    /// The builder's internal consistency: one stored setup per pass, dense
    /// sequential setup indices, dependencies over registered passes only,
    /// and every pass bound to a registered family and queue.
    pub open spec fn wf(self) -> bool {
        &&& self.data_storage.data@.len() == self.passes@.len()
        &&& deps_wf(self.dependencies@, self.passes@.len() as nat)
        &&& forall|i: int|
            0 <= i < self.passes@.len() ==> (#[trigger] self.passes@[i]).setup_index == i
                && self.passes@[i].family < self.families@.len()
                && self.passes@[i].queue < self.families@[self.passes@[i].family as int].queue_count
    }

    pub fn new() -> (r: Self)
        ensures
            r.wf(),
            r.data_storage.data@.len() == 0,
            r.logical_resources.buffers@.len() == 0,
            r.logical_resources.buffer_views@.len() == 0,
            r.logical_resources.images@.len() == 0,
            r.logical_resources.image_views@.len() == 0,
            r.families@.len() == 0,
            r.passes@.len() == 0,
            r.dependencies@.len() == 0,
    {
        FrameGraphBuilder {
            data_storage: PassDataStorage::new(),
            logical_resources: LogicalResources::new(),
            families: Vec::new(),
            passes: Vec::new(),
            dependencies: Vec::new(),
        }
    }

    /// Register a queue family under a fixed capability set. Rejects a
    /// family declaring zero queues.
    pub fn register_queue_family(&mut self, capability: CapabilitySet, num_queues: usize) -> (r:
        Result<FamilyId, FrameGraphError>)
        requires
            old(self).wf(),
        ensures
            final(self).wf(),
            num_queues == 0 ==> r is Err && r->Err_0 is EmptyQueueFamily && *final(self) == *old(self),
            num_queues > 0 ==> {
                &&& r is Ok
                &&& r->Ok_0.index == old(self).families@.len()
                &&& r->Ok_0.capability == capability
                &&& final(self).families@ == old(self).families@.push(
                    (QueueFamily { capability, queue_count: num_queues }),
                )
                &&& final(self).data_storage == old(self).data_storage
                &&& final(self).logical_resources == old(self).logical_resources
                &&& final(self).passes == old(self).passes
                &&& final(self).dependencies == old(self).dependencies
            },
    {
        if num_queues == 0 {
            return Err(FrameGraphError::EmptyQueueFamily);
        }
        let id = FamilyId { index: self.families.len(), capability };
        self.families.push(QueueFamily { capability, queue_count: num_queues });
        Ok(id)
    }

    /// Create a logical buffer in the resource table.
    pub fn create_buffer(&mut self, name: &str, frame: Frame) -> (r: BufferRef)
        requires
            old(self).wf(),
        ensures
            final(self).wf(),
            r.0 == old(self).logical_resources.buffers@.len(),
            r.1 == frame,
            final(self).logical_resources.buffers@.len() == old(self).logical_resources.buffers@.len() + 1,
            final(self).logical_resources.buffer_views == old(self).logical_resources.buffer_views,
            final(self).logical_resources.images == old(self).logical_resources.images,
            final(self).logical_resources.image_views == old(self).logical_resources.image_views,
            final(self).data_storage == old(self).data_storage,
            final(self).families == old(self).families,
            final(self).passes == old(self).passes,
            final(self).dependencies == old(self).dependencies,
    {
        self.logical_resources.add_buffer(name, frame)
    }

    /// Create a logical buffer view in the resource table.
    pub fn create_buffer_view(&mut self, name: &str, frame: Frame) -> (r: BufferViewRef)
        requires
            old(self).wf(),
        ensures
            final(self).wf(),
            r.0 == old(self).logical_resources.buffer_views@.len(),
            r.1 == frame,
            final(self).logical_resources.buffer_views@.len() == old(self).logical_resources.buffer_views@.len() + 1,
            final(self).logical_resources.buffers == old(self).logical_resources.buffers,
            final(self).logical_resources.images == old(self).logical_resources.images,
            final(self).logical_resources.image_views == old(self).logical_resources.image_views,
            final(self).data_storage == old(self).data_storage,
            final(self).families == old(self).families,
            final(self).passes == old(self).passes,
            final(self).dependencies == old(self).dependencies,
    {
        self.logical_resources.add_buffer_view(name, frame)
    }

    /// Create a logical image in the resource table.
    pub fn create_image(&mut self, name: &str, frame: Frame) -> (r: ImageRef)
        requires
            old(self).wf(),
        ensures
            final(self).wf(),
            r.0 == old(self).logical_resources.images@.len(),
            r.1 == frame,
            final(self).logical_resources.images@.len() == old(self).logical_resources.images@.len() + 1,
            final(self).logical_resources.buffers == old(self).logical_resources.buffers,
            final(self).logical_resources.buffer_views == old(self).logical_resources.buffer_views,
            final(self).logical_resources.image_views == old(self).logical_resources.image_views,
            final(self).data_storage == old(self).data_storage,
            final(self).families == old(self).families,
            final(self).passes == old(self).passes,
            final(self).dependencies == old(self).dependencies,
    {
        self.logical_resources.add_image(name, frame)
    }

    /// Create a logical image view in the resource table.
    pub fn create_image_view(&mut self, name: &str, frame: Frame) -> (r: ImageViewRef)
        requires
            old(self).wf(),
        ensures
            final(self).wf(),
            r.0 == old(self).logical_resources.image_views@.len(),
            r.1 == frame,
            final(self).logical_resources.image_views@.len() == old(self).logical_resources.image_views@.len() + 1,
            final(self).logical_resources.buffers == old(self).logical_resources.buffers,
            final(self).logical_resources.buffer_views == old(self).logical_resources.buffer_views,
            final(self).logical_resources.images == old(self).logical_resources.images,
            final(self).data_storage == old(self).data_storage,
            final(self).families == old(self).families,
            final(self).passes == old(self).passes,
            final(self).dependencies == old(self).dependencies,
    {
        self.logical_resources.add_image_view(name, frame)
    }

    /// Register a pass demanding the given capability of its queue binding.
    fn add_pass<R: PassResources>(
        &mut self,
        queue: (FamilyId, QueueId),
        required: CapabilitySet,
        setup: R,
    ) -> (r: Result<PassId, FrameGraphError>)
        requires
            old(self).wf(),
        ensures
            final(self).wf(),
            add_pass_post(*old(self), *final(self), queue, required, setup, r),
    {
        let fam = queue.0;
        let accept = fam.index < self.families.len() && {
            let registered = self.families[fam.index];
            registered.capability == fam.capability && fam.capability.supports(required) && queue.1
                < registered.queue_count
        };
        if !accept {
            return Err(FrameGraphError::CapabilityMismatch);
        }
        let v = setup.to_virtual();
        let index = self.data_storage.store(R::type_tag(), v);
        self.passes.push(PassEntry { setup_index: index, family: fam.index, queue: queue.1 });
        Ok(PassId(index))
    }

    /// Register a graphics pass: its queue family must support graphics
    /// work. The setup object is stored type-erased; the pass body resolves
    /// it back at execution time through the pass resource capability.
    pub fn add_graphic<R: PassResources>(&mut self, queue: (FamilyId, QueueId), setup: R) -> (r:
        Result<PassId, FrameGraphError>)
        requires
            old(self).wf(),
        ensures
            final(self).wf(),
            add_pass_post(*old(self), *final(self), queue, graphics_requirement(), setup, r),
    {
        self.add_pass(queue, CapabilitySet { graphics: true, compute: false, transfer: false }, setup)
    }

    /// Register a compute pass: its queue family must support compute work.
    pub fn add_compute<R: PassResources>(&mut self, queue: (FamilyId, QueueId), setup: R) -> (r:
        Result<PassId, FrameGraphError>)
        requires
            old(self).wf(),
        ensures
            final(self).wf(),
            add_pass_post(*old(self), *final(self), queue, compute_requirement(), setup, r),
    {
        self.add_pass(queue, CapabilitySet { graphics: false, compute: true, transfer: false }, setup)
    }

    /// Declare that the pass `dep.start` must execute before `dep.end`.
    /// Rejects a self edge and ids this builder never issued.
    pub fn add_dependency(&mut self, dep: Dependency) -> (r: Result<(), FrameGraphError>)
        requires
            old(self).wf(),
        ensures
            final(self).wf(),
            r is Ok <==> (dep.start.0 < old(self).passes@.len()
                && dep.end.0 < old(self).passes@.len() && dep.start.0 != dep.end.0),
            r is Ok ==> final(self).dependencies@ == old(self).dependencies@.push(dep)
                && final(self).data_storage == old(self).data_storage
                && final(self).logical_resources == old(self).logical_resources
                && final(self).families == old(self).families
                && final(self).passes == old(self).passes,
            r is Err ==> r->Err_0 is InvalidDependency && *final(self) == *old(self),
    {
        let n = self.passes.len();
        if dep.start.0 < n && dep.end.0 < n && dep.start.0 != dep.end.0 {
            self.dependencies.push(dep);
            Ok(())
        } else {
            Err(FrameGraphError::InvalidDependency)
        }
    }
}


/// Membership between fixed bounds depends only on the entries between
/// those bounds.
proof fn lemma_listed_transfer(
    snap: Seq<LiveResource>,
    cs: Seq<LiveResource>,
    lo: int,
    hi: int,
    r: ResourceId,
)
    requires
        0 <= lo <= hi <= snap.len(),
        hi <= cs.len(),
        forall|j: int| lo <= j < hi ==> cs[j] == snap[j],
    ensures
        listed_between(cs, lo, hi, r) <==> listed_between(snap, lo, hi, r),
{
    if listed_between(cs, lo, hi, r) {
        let j = choose|j: int| lo <= j < hi && (#[trigger] cs[j]).resource == r;
        assert(snap[j].resource == r);
    }
    if listed_between(snap, lo, hi, r) {
        let j = choose|j: int| lo <= j < hi && (#[trigger] snap[j]).resource == r;
        assert(cs[j].resource == r);
    }
}

/// Copy a slot table (used to carry the previous frame's assignments into
/// the new graph).
fn copy_assignments(v: &Vec<SlotAssignment>) -> (r: Vec<SlotAssignment>)
    ensures
        r@ == v@,
{
    let mut r: Vec<SlotAssignment> = Vec::new();
    let mut i: usize = 0;
    while i < v.len()
        invariant
            i <= v@.len(),
            r@.len() == i,
            forall|k: int| 0 <= k < i ==> r@[k] == v@[k],
        decreases v@.len() - i,
    {
        r.push(v[i]);
        i += 1;
    }
    proof {
        assert(r@ =~= v@);
    }
    r
}

impl FrameGraphBuilder {
    /// The compilation pipeline: validate every declared reference, order
    /// the passes topologically, reject unsynchronized resource sharing,
    /// compute live ranges, and alias disjoint live ranges onto shared
    /// physical slots.
    #[verifier::rlimit(100)]
    fn compile_core(self, previous: Vec<SlotAssignment>) -> (r: Result<
        FrameGraph,
        FrameGraphError,
    >)
        requires
            self.wf(),
            distinct_assignments(previous@),
        ensures
            compile_post(self, previous@, r),
    {
        let FrameGraphBuilder { data_storage, logical_resources, families: _, passes, dependencies } =
            self;
        let n = passes.len();
        if !validate_refs(&logical_resources, &previous, &data_storage.data) {
            return Err(FrameGraphError::UnknownResourceReference);
        }
        let order = match topological_order(n, &dependencies) {
            Ok(o) => o,
            Err((cycle, partial)) => {
                let e = FrameGraphError::CyclicDependency(cycle);
                proof {
                    assert(cycle_report_ok(
                        self.dependencies@,
                        self.passes@.len() as nat,
                        e->CyclicDependency_0@,
                        partial@,
                    ));
                    assert(exists|pp: Seq<PassId>|
                        cycle_report_ok(
                            self.dependencies@,
                            self.passes@.len() as nat,
                            e->CyclicDependency_0@,
                            pp,
                        ));
                    assert(compile_err(self, previous@, e));
                }
                return Err(e);
            },
        };
        if let Some((p, q)) = check_synchronization(&dependencies, &data_storage.data) {
            let e = FrameGraphError::UnsynchronizedAccess(p, q);
            proof {
                assert(topo_ok(self.dependencies@, self.passes@.len() as nat, order@));
                assert(exists|oo: Seq<PassId>|
                    topo_ok(self.dependencies@, self.passes@.len() as nat, oo));
                assert(compile_err(self, previous@, e));
            }
            return Err(e);
        }
        let mut cands: Vec<LiveResource> = Vec::new();
        collect_kind(
            ResourceKind::Buffer,
            logical_resources.buffers.len(),
            &data_storage.data,
            &order,
            &mut cands,
        );
        let ghost s1 = cands@;
        let ghost a1 = cands@.len() as int;
        collect_kind(
            ResourceKind::BufferView,
            logical_resources.buffer_views.len(),
            &data_storage.data,
            &order,
            &mut cands,
        );
        let ghost s2 = cands@;
        let ghost a2 = cands@.len() as int;
        collect_kind(
            ResourceKind::Image,
            logical_resources.images.len(),
            &data_storage.data,
            &order,
            &mut cands,
        );
        let ghost s3 = cands@;
        let ghost a3 = cands@.len() as int;
        collect_kind(
            ResourceKind::ImageView,
            logical_resources.image_views.len(),
            &data_storage.data,
            &order,
            &mut cands,
        );
        let ghost a4 = cands@.len() as int;
        let ghost cs = cands@;
        proof {
            // which segment of the candidate list a position falls in
            // settles its resource kind, so no resource is listed twice
            assert forall|i: int, j: int| 0 <= i < j < cs.len() implies (#[trigger] cs[i]).resource
                != (#[trigger] cs[j]).resource by {
                if cs[i].resource == cs[j].resource {
                    if i < a1 && j < a1 {
                        assert(cs[i].resource.index < cs[j].resource.index);
                    } else if a1 <= i < a2 && a1 <= j < a2 {
                        assert(cs[i].resource.index < cs[j].resource.index);
                    } else if a2 <= i < a3 && a2 <= j < a3 {
                        assert(cs[i].resource.index < cs[j].resource.index);
                    } else if a3 <= i < a4 && a3 <= j < a4 {
                        assert(cs[i].resource.index < cs[j].resource.index);
                    } else {
                        assert(cs[i].resource.kind != cs[j].resource.kind);
                    }
                }
            }
        }
        sort_candidates(&mut cands);
        let ghost srt = cands@;
        let assignments = assign_slots(&cands);
        let g = FrameGraph {
            order,
            assignments,
            previous,
            setups: data_storage.data,
            passes,
        };
        proof {
            let table = self.logical_resources;
            let setups = g.setups@;
            let ord = g.order@;
            let asg = g.assignments@;
            let cb = table.buffers@.len() as int;
            let cv = table.buffer_views@.len() as int;
            let ci = table.images@.len() as int;
            let cw = table.image_views@.len() as int;
            // every sorted entry is one of the collected candidates
            assert forall|j: int| 0 <= j < srt.len() implies exists|k: int|
                0 <= k < cs.len() && cs[k] == #[trigger] srt[j] by {
                assert(cs.contains(srt[j]));
            }
            assert(distinct_assignments(asg)) by {
                assert forall|i: int, j: int| 0 <= i < j < asg.len() implies (
                #[trigger] asg[i]).resource != (#[trigger] asg[j]).resource by {
                    assert(asg[i].resource == srt[i].resource);
                    assert(asg[j].resource == srt[j].resource);
                }
            }
            // each assignment carries the exact live range of its candidate
            assert forall|j: int| 0 <= j < asg.len() implies (#[trigger] asg[j]).resource.frame
                == 0 && live_range_ok(
                setups,
                ord,
                (LiveResource { resource: asg[j].resource, first: asg[j].first, last: asg[j].last }),
            ) by {
                assert((LiveResource {
                    resource: asg[j].resource,
                    first: asg[j].first,
                    last: asg[j].last,
                }) == srt[j]);
                let k = choose|k: int| 0 <= k < cs.len() && cs[k] == srt[j];
                if k < a1 {
                    assert(live_range_ok(setups, ord, cs[k]));
                } else if k < a2 {
                    assert(live_range_ok(setups, ord, cs[k]));
                } else if k < a3 {
                    assert(live_range_ok(setups, ord, cs[k]));
                } else {
                    assert(live_range_ok(setups, ord, cs[k]));
                }
            }
            assert(g.wf());
            // the slot table covers exactly the touched current-frame
            // resources of each kind
            assert forall|r: ResourceId|
                r.frame == 0 && r.index < table.count_of(r.kind) implies ((
            #[trigger] listed_assignment(asg, r)) <==> touched_somewhere(setups, ord, r)) by {
                let lo: int = match r.kind {
                    ResourceKind::Buffer => 0,
                    ResourceKind::BufferView => a1,
                    ResourceKind::Image => a2,
                    ResourceKind::ImageView => a3,
                };
                let hi: int = match r.kind {
                    ResourceKind::Buffer => a1,
                    ResourceKind::BufferView => a2,
                    ResourceKind::Image => a3,
                    ResourceKind::ImageView => a4,
                };
                assert(r == (ResourceId { kind: r.kind, index: r.index, frame: 0 }));
                match r.kind {
                    ResourceKind::Buffer => {
                        lemma_listed_transfer(s1, cs, lo, hi, r);
                        assert(listed_between(s1, 0, a1, r) <==> touched_somewhere(
                            setups,
                            ord,
                            r,
                        ));
                    },
                    ResourceKind::BufferView => {
                        lemma_listed_transfer(s2, cs, lo, hi, r);
                        assert(listed_between(s2, a1, a2, r) <==> touched_somewhere(
                            setups,
                            ord,
                            r,
                        ));
                    },
                    ResourceKind::Image => {
                        lemma_listed_transfer(s3, cs, lo, hi, r);
                        assert(listed_between(s3, a2, a3, r) <==> touched_somewhere(
                            setups,
                            ord,
                            r,
                        ));
                    },
                    ResourceKind::ImageView => {
                        assert(listed_between(cs, a3, a4, r) <==> touched_somewhere(
                            setups,
                            ord,
                            r,
                        ));
                    },
                }
                assert(listed_between(cs, lo, hi, r) <==> touched_somewhere(setups, ord, r));
                if listed_assignment(asg, r) {
                    let j = choose|j: int| 0 <= j < asg.len() && (#[trigger] asg[j]).resource == r;
                    assert(asg[j].resource == srt[j].resource);
                    let k = choose|k: int| 0 <= k < cs.len() && cs[k] == srt[j];
                    assert(cs[k].resource == r);
                    assert(lo <= k < hi) by {
                        if k < lo || k >= hi {
                            assert(cs[k].resource.kind != r.kind);
                        }
                    }
                    assert(listed_between(cs, lo, hi, r));
                }
                if listed_between(cs, lo, hi, r) {
                    let k = choose|k: int| lo <= k < hi && (#[trigger] cs[k]).resource == r;
                    assert(srt.contains(cs[k]));
                    let j = choose|j: int| 0 <= j < srt.len() && srt[j] == cs[k];
                    assert(asg[j].resource == r);
                    assert(listed_assignment(asg, r));
                }
            }
            // every reference any pass declared resolves through the graph
            assert forall|i: int, r: ResourceId|
                0 <= i < setups.len() && (#[trigger] setups[i].data.touches(r))
                implies g.resolvable_id(r) by {
                assert(setup_refs_ok(table, previous@, setups[i].data));
                assert(ref_ok(table, previous@, r)) by {
                    if setups[i].data.reads@.contains(r) {
                        let k = choose|k: int|
                            0 <= k < setups[i].data.reads@.len() && setups[i].data.reads@[k] == r;
                        assert(ref_ok(table, previous@, setups[i].data.reads@[k]));
                    } else {
                        let k = choose|k: int|
                            0 <= k < setups[i].data.writes@.len() && setups[i].data.writes@[k]
                                == r;
                        assert(ref_ok(table, previous@, setups[i].data.writes@[k]));
                    }
                }
                if r.frame == 0 {
                    assert(emitted_before(ord, n as int, i));
                    let pos = choose|pos: int| 0 <= pos < n && (#[trigger] ord[pos]).0 == i;
                    assert(touched_at(setups, ord, r, pos));
                    assert(touched_somewhere(setups, ord, r));
                    assert(listed_assignment(asg, r));
                } else {
                    assert(r.frame == -1);
                    assert(listed_assignment(
                        previous@,
                        (ResourceId { kind: r.kind, index: r.index, frame: 0 }),
                    ));
                }
            }
        }
        Ok(g)
    }

    /// Compile the builder into an immutable frame graph, consuming it.
    /// Fails with `UnknownResourceReference` when a pass uses a handle this
    /// builder never created, with `CyclicDependency` when the dependency
    /// set admits no execution order, and with `UnsynchronizedAccess` when
    /// two passes share a resource with no edge between them.
    pub fn compile(self) -> (r: Result<FrameGraph, FrameGraphError>)
        requires
            self.wf(),
        ensures
            compile_post(self, Seq::<SlotAssignment>::empty(), r),
    {
        let previous: Vec<SlotAssignment> = Vec::new();
        proof {
            assert(previous@ =~= Seq::<SlotAssignment>::empty());
        }
        self.compile_core(previous)
    }

    /// Compile against the previous frame's graph, so that passes may
    /// address resources produced one frame earlier: a reference at the
    /// previous frame offset resolves to the slot that graph allocated.
    pub fn compile_with_history(self, previous: &FrameGraph) -> (r: Result<
        FrameGraph,
        FrameGraphError,
    >)
        requires
            self.wf(),
            distinct_assignments(previous.assignments@),
        ensures
            compile_post(self, previous.assignments@, r),
    {
        let prev = copy_assignments(&previous.assignments);
        self.compile_core(prev)
    }
}


} // verus!
