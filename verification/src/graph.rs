//! The compiled frame graph: the execution order, the logical-to-physical
//! slot mapping, and the read-only setup storage, all moved out of the
//! builder at compile time. It resolves logical handles to physical slots at
//! execution time, and hands each pass its setup data back under a checked
//! type tag.

use vstd::prelude::*;

use crate::compile::distinct_assignments;
use crate::compile::first_fit_at;
use crate::compile::listed_assignment;
use crate::compile::live_range_ok;
use crate::compile::find_assignment;
use crate::compile::LiveResource;
use crate::compile::SlotAssignment;
use crate::storage::StoredSetup;
use crate::storage::VirtualResources;
use crate::types::BufferRef;
use crate::types::FrameGraphError;
use crate::types::PassEntry;
use crate::types::PassId;
use crate::types::PhysicalBuffer;
use crate::types::PhysicalResource;
use crate::types::ResourceId;

verus! {

/// The immutable artifact produced by compilation.
pub struct FrameGraph {
    /// The passes in a valid execution order.
    pub order: Vec<PassId>,
    /// The physical slot chosen for every logical resource of the current
    /// frame that some pass touches.
    pub assignments: Vec<SlotAssignment>,
    /// The slot assignments of the previous frame's graph, used to resolve
    /// references at the previous frame offset.
    pub previous: Vec<SlotAssignment>,
    /// The type-erased setup objects, one per pass, moved from the builder.
    pub setups: Vec<StoredSetup>,
    /// The registered passes, moved from the builder.
    pub passes: Vec<PassEntry>,
}

impl FrameGraph {
    /// The assignment tables name each resource at most once, so resolution
    /// is deterministic.
    pub open spec fn resolution_wf(self) -> bool {
        &&& distinct_assignments(self.assignments@)
        &&& distinct_assignments(self.previous@)
    }

    /// The graph can hand a physical slot to this logical identity: at the
    /// current frame through its own assignments, at the previous frame
    /// through the previous graph's.
    pub open spec fn resolvable_id(self, r: ResourceId) -> bool {
        ||| (r.frame == 0 && listed_assignment(self.assignments@, r))
        ||| (r.frame == -1 && listed_assignment(
            self.previous@,
            (ResourceId { kind: r.kind, index: r.index, frame: 0 }),
        ))
    }

    /// `slot` is the slot that the graph's tables hold for this identity.
    pub open spec fn slot_matches(self, r: ResourceId, slot: usize) -> bool {
        &&& (r.frame == 0 ==> forall|k: int|
            0 <= k < self.assignments@.len() && (#[trigger] self.assignments@[k]).resource == r
                ==> self.assignments@[k].slot == slot)
        &&& (r.frame == -1 ==> forall|k: int|
            0 <= k < self.previous@.len() && (#[trigger] self.previous@[k]).resource == (
            ResourceId { kind: r.kind, index: r.index, frame: 0 }) ==> self.previous@[k].slot
                == slot)
    }

    /// Overall shape of a compiled graph: one pass and one setup per
    /// registered pass, a duplicate-free order over them, distinct
    /// assignments whose entries carry exact live ranges within the order,
    /// and greedily chosen slots.
    pub open spec fn wf(self) -> bool {
        &&& self.setups@.len() == self.passes@.len()
        &&& self.order@.len() == self.passes@.len()
        &&& self.order@.no_duplicates()
        &&& forall|j: int| 0 <= j < self.order@.len() ==> (#[trigger] self.order@[j]).0 < self.passes@.len()
        &&& self.resolution_wf()
        &&& forall|j: int|
            0 <= j < self.assignments@.len() ==> (#[trigger] self.assignments@[j]).resource.frame
                == 0 && live_range_ok(
                self.setups@,
                self.order@,
                (LiveResource {
                    resource: self.assignments@[j].resource,
                    first: self.assignments@[j].first,
                    last: self.assignments@[j].last,
                }),
            ) && self.assignments@[j].slot <= j
        &&& forall|j: int|
            0 <= j < self.assignments@.len() ==> #[trigger] first_fit_at(self.assignments@, j)
    }

    /// Resolve a logical identity to the physical slot backing it. A current
    /// frame identity resolves through this graph's own assignments; one at
    /// the previous frame offset resolves to the slot that the previous
    /// frame's graph allocated for it. Anything else was never created here.
    pub fn resolve(&self, r: ResourceId) -> (res: Result<PhysicalResource, FrameGraphError>)
        requires
            self.resolution_wf(),
        ensures
            res is Ok <==> self.resolvable_id(r),
            res is Ok ==> res->Ok_0.resource == r && self.slot_matches(r, res->Ok_0.slot),
            res is Err ==> res->Err_0 is UnknownResourceReference,
    {
        if r.frame == 0 {
            match find_assignment(&self.assignments, r) {
                Some(a) => Ok(PhysicalResource { resource: r, slot: a.slot }),
                None => Err(FrameGraphError::UnknownResourceReference),
            }
        } else if r.frame == -1 {
            let key = ResourceId { kind: r.kind, index: r.index, frame: 0 };
            match find_assignment(&self.previous, key) {
                Some(a) => Ok(PhysicalResource { resource: r, slot: a.slot }),
                None => Err(FrameGraphError::UnknownResourceReference),
            }
        } else {
            Err(FrameGraphError::UnknownResourceReference)
        }
    }

    /// Resolve a logical buffer handle; the physical buffer records the
    /// originating logical index and frame offset beside the slot.
    pub fn resolve_buffer(&self, r: BufferRef) -> (res: Result<PhysicalBuffer, FrameGraphError>)
        requires
            self.resolution_wf(),
        ensures
            res is Ok <==> self.resolvable_id(r.id_spec()),
            res is Ok ==> res->Ok_0.index == r.0 && res->Ok_0.frame == r.1 && self.slot_matches(
                r.id_spec(),
                res->Ok_0.slot,
            ),
            res is Err ==> res->Err_0 is UnknownResourceReference,
    {
        match self.resolve(r.resource_id()) {
            Ok(p) => Ok(PhysicalBuffer { index: r.0, frame: r.1, slot: p.slot }),
            Err(e) => Err(e),
        }
    }

    /// Fetch a pass's erased setup data back, checking the type tag recorded
    /// when it was stored.
    pub fn fetch_setup(&self, pass: PassId, tag: u64) -> (res: Result<
        &VirtualResources,
        FrameGraphError,
    >)
        requires
            pass.0 < self.setups@.len(),
        ensures
            res is Ok <==> self.setups@[pass.0 as int].tag == tag,
            res is Ok ==> *res->Ok_0 == self.setups@[pass.0 as int].data,
            res is Err ==> res->Err_0 is TypeMismatch,
    {
        let stored = &self.setups[pass.0];
        if stored.tag == tag {
            Ok(&stored.data)
        } else {
            Err(FrameGraphError::TypeMismatch)
        }
    }

    /// Fetch a pass's setup data back at its concrete type. The stored type
    /// tag and shape are checked; a mismatch fails with `TypeMismatch` and
    /// never hands back another type's data.
    pub fn fetch_pass<R: PassResources>(&self, pass: PassId) -> (res: Result<R, FrameGraphError>)
        requires
            pass.0 < self.setups@.len(),
        ensures
            res is Ok <==> (self.setups@[pass.0 as int].tag == R::tag_spec()
                && R::from_virtual_spec(self.setups@[pass.0 as int].data) is Some),
            res is Ok ==> Some(res->Ok_0) == R::from_virtual_spec(self.setups@[pass.0 as int].data),
            res is Err ==> res->Err_0 is TypeMismatch,
    {
        match self.fetch_setup(pass, R::type_tag()) {
            Ok(data) => match R::from_virtual(data) {
                Some(setup) => Ok(setup),
                None => Err(FrameGraphError::TypeMismatch),
            },
            Err(e) => Err(e),
        }
    }
}

/// The capability every pass setup type implements: it declares which
/// logical resources the pass reads and writes, erases itself into (and
/// recovers itself from) the stored form under a fixed type tag, and
/// acquires the pass's concrete resources from a compiled graph.
pub trait PassResources: Sized + Copy {
    /// The bundle of resolved physical resources the pass body receives.
    type Resources;

    /// The type tag this setup type is stored under.
    spec fn tag_spec() -> u64;

    /// The logical identities the pass reads.
    spec fn reads_spec(self) -> Seq<ResourceId>;

    /// The logical identities the pass writes.
    spec fn writes_spec(self) -> Seq<ResourceId>;

    /// Which setup value the erased form stands for, if any.
    spec fn from_virtual_spec(v: VirtualResources) -> Option<Self>;

    /// The compiled graph holds a slot for every handle this setup needs.
    spec fn resolvable(self, fg: FrameGraph) -> bool;

    /// The acquired bundle matches the graph's slot tables for this setup.
    spec fn resources_ok(self, fg: FrameGraph, r: Self::Resources) -> bool;

    fn type_tag() -> (t: u64)
        ensures
            t == Self::tag_spec(),
    ;

    /// Erase the setup into the stored form; recovery hands the same value
    /// back.
    fn to_virtual(&self) -> (v: VirtualResources)
        ensures
            v.reads@ == self.reads_spec(),
            v.writes@ == self.writes_spec(),
            Self::from_virtual_spec(v) == Some(*self),
    ;

    /// Recover the setup from the stored form.
    fn from_virtual(v: &VirtualResources) -> (r: Option<Self>)
        ensures
            r == Self::from_virtual_spec(*v),
    ;

    /// Resolve every logical handle of this setup through the compiled
    /// graph into the concrete resource bundle.
    fn acquire(&self, frame_graph: &FrameGraph) -> (r: Self::Resources)
        requires
            self.resolvable(*frame_graph),
        ensures
            self.resources_ok(*frame_graph, r),
    ;
}

} // verus!
