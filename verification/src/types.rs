//! Plain data carried through the frame graph: logical resource handles,
//! pass and queue identifiers, capability sets, and the error type.

use vstd::prelude::*;

verus! {

/// Frame offset relative to the frame graph currently being built.
/// `0` is the current frame; negative values address resources produced by
/// earlier frames (history buffers for temporal techniques).
pub type Frame = isize;

/// Number of queues in a registered queue family.
pub type QueueCount = usize;

/// Queue index within a registered queue family.
pub type QueueId = usize;

/// The four kinds of logical resources the resource table can hold.
#[derive(Debug, Copy, Clone, PartialEq, Eq, Structural)]
pub enum ResourceKind {
    Buffer,
    BufferView,
    Image,
    ImageView,
}

/// Identity of a logical resource: its kind, its table index within that
/// kind, and the frame offset it is addressed at. Two identities with the
/// same index but different frame offsets are distinct resources.
#[derive(Debug, Copy, Clone, PartialEq, Eq, Structural)]
pub struct ResourceId {
    pub kind: ResourceKind,
    pub index: usize,
    pub frame: Frame,
}

/// Logical handle to a buffer: (table index, frame offset).
#[derive(Debug, Copy, Clone, PartialEq, Eq, Structural)]
pub struct BufferRef(pub usize, pub Frame);

/// Logical handle to a buffer view: (table index, frame offset).
#[derive(Debug, Copy, Clone, PartialEq, Eq, Structural)]
pub struct BufferViewRef(pub usize, pub Frame);

/// Logical handle to an image: (table index, frame offset).
#[derive(Debug, Copy, Clone, PartialEq, Eq, Structural)]
pub struct ImageRef(pub usize, pub Frame);

/// Logical handle to an image view: (table index, frame offset).
#[derive(Debug, Copy, Clone, PartialEq, Eq, Structural)]
pub struct ImageViewRef(pub usize, pub Frame);

impl BufferRef {
    /// The resource identity this handle denotes.
    pub open spec fn id_spec(self) -> ResourceId {
        ResourceId { kind: ResourceKind::Buffer, index: self.0, frame: self.1 }
    }

    pub fn resource_id(self) -> (r: ResourceId)
        ensures
            r == self.id_spec(),
    {
        ResourceId { kind: ResourceKind::Buffer, index: self.0, frame: self.1 }
    }
}

impl BufferViewRef {
    /// The resource identity this handle denotes.
    pub open spec fn id_spec(self) -> ResourceId {
        ResourceId { kind: ResourceKind::BufferView, index: self.0, frame: self.1 }
    }

    pub fn resource_id(self) -> (r: ResourceId)
        ensures
            r == self.id_spec(),
    {
        ResourceId { kind: ResourceKind::BufferView, index: self.0, frame: self.1 }
    }
}

impl ImageRef {
    /// The resource identity this handle denotes.
    pub open spec fn id_spec(self) -> ResourceId {
        ResourceId { kind: ResourceKind::Image, index: self.0, frame: self.1 }
    }

    pub fn resource_id(self) -> (r: ResourceId)
        ensures
            r == self.id_spec(),
    {
        ResourceId { kind: ResourceKind::Image, index: self.0, frame: self.1 }
    }
}

impl ImageViewRef {
    /// The resource identity this handle denotes.
    pub open spec fn id_spec(self) -> ResourceId {
        ResourceId { kind: ResourceKind::ImageView, index: self.0, frame: self.1 }
    }

    pub fn resource_id(self) -> (r: ResourceId)
        ensures
            r == self.id_spec(),
    {
        ResourceId { kind: ResourceKind::ImageView, index: self.0, frame: self.1 }
    }
}

/// Id for a pass registered while building the frame graph.
#[derive(Debug, Copy, Clone, PartialEq, Eq, PartialOrd, Ord, Hash, Structural)]
pub struct PassId(pub usize);

/// Execution dependency between two frame graph passes: the pass `start`
/// must complete before the pass `end` begins.
#[derive(Debug, Copy, Clone, PartialEq, Eq, Structural)]
pub struct Dependency {
    pub start: PassId,
    pub end: PassId,
}

/// Capability set of a queue family, or required by a pass. A pass requiring
/// capability set `c` may only be bound to a family whose set is a superset
/// of `c`.
#[derive(Debug, Copy, Clone, PartialEq, Eq, Structural)]
pub struct CapabilitySet {
    pub graphics: bool,
    pub compute: bool,
    pub transfer: bool,
}

impl CapabilitySet {
    /// `self` covers everything that `required` demands.
    pub open spec fn supports_spec(self, required: CapabilitySet) -> bool {
        &&& required.graphics ==> self.graphics
        &&& required.compute ==> self.compute
        &&& required.transfer ==> self.transfer
    }

    pub fn supports(self, required: CapabilitySet) -> (r: bool)
        ensures
            r == self.supports_spec(required),
    {
        (!required.graphics || self.graphics) && (!required.compute || self.compute)
            && (!required.transfer || self.transfer)
    }

    /// A graphics family; graphics queues can also transfer.
    pub fn graphics() -> (c: CapabilitySet)
        ensures
            c == (CapabilitySet { graphics: true, compute: false, transfer: true }),
    {
        CapabilitySet { graphics: true, compute: false, transfer: true }
    }

    /// A compute family; compute queues can also transfer.
    pub fn compute() -> (c: CapabilitySet)
        ensures
            c == (CapabilitySet { graphics: false, compute: true, transfer: true }),
    {
        CapabilitySet { graphics: false, compute: true, transfer: true }
    }

    /// A transfer-only family.
    pub fn transfer() -> (c: CapabilitySet)
        ensures
            c == (CapabilitySet { graphics: false, compute: false, transfer: true }),
    {
        CapabilitySet { graphics: false, compute: false, transfer: true }
    }

    /// A general family supporting every kind of work.
    pub fn general() -> (c: CapabilitySet)
        ensures
            c == (CapabilitySet { graphics: true, compute: true, transfer: true }),
    {
        CapabilitySet { graphics: true, compute: true, transfer: true }
    }
}

/// Id for a registered queue family, tagged with the capability set fixed at
/// registration time.
#[derive(Debug, Copy, Clone, PartialEq, Eq, Structural)]
pub struct FamilyId {
    pub index: usize,
    pub capability: CapabilitySet,
}

/// A physical slot resolved for a logical resource. The slot is the backing
/// allocation; `resource` records which logical identity it was resolved for.
#[derive(Debug, Copy, Clone, PartialEq, Eq, Structural)]
pub struct PhysicalResource {
    pub resource: ResourceId,
    pub slot: usize,
}

/// A physical buffer resolved for a logical buffer handle: the originating
/// logical index and frame offset, and the physical slot backing it.
#[derive(Debug, Copy, Clone, PartialEq, Eq, Structural)]
pub struct PhysicalBuffer {
    pub index: usize,
    pub frame: Frame,
    pub slot: usize,
}

/// One registered pass: the index of its setup object in the pass data
/// storage, and the queue binding it was registered with.
#[derive(Debug, Copy, Clone, PartialEq, Eq, Structural)]
pub struct PassEntry {
    pub setup_index: usize,
    pub family: usize,
    pub queue: QueueId,
}

/// Everything that can go wrong while building or compiling a frame graph.
#[derive(Debug, Clone)]
pub enum FrameGraphError {
    /// A dependency names an unknown pass, or is a self edge.
    InvalidDependency,
    /// A queue family was registered with zero queues.
    EmptyQueueFamily,
    /// A pass was bound to a queue its family cannot serve.
    CapabilityMismatch,
    /// Pass setup data was fetched at a type other than the stored one.
    TypeMismatch,
    /// The dependency set admits no execution order; carries the passes of a
    /// cyclic subgraph.
    CyclicDependency(Vec<PassId>),
    /// The two passes touch a common logical resource, at least one of them
    /// writing, with no dependency edge between them.
    UnsynchronizedAccess(PassId, PassId),
    /// A pass uses a logical handle that this builder never created.
    UnknownResourceReference,
}

} // verus!
