//! A second sample pass setup: a filter pass that reads one logical buffer
//! and writes another.

use vstd::prelude::*;

use crate::graph::FrameGraph;
use crate::graph::PassResources;
use crate::storage::VirtualResources;
use crate::types::BufferRef;
use crate::types::PhysicalBuffer;
use crate::types::ResourceId;
use crate::types::ResourceKind;

verus! {

/// The type tag the filter setup is stored under.
pub const FILTER_SETUP_TAG: u64 = 2;

/// The filter pass's virtual resources: the buffer it reads and the buffer
/// it writes.
#[derive(Debug, Copy, Clone, PartialEq, Eq, Structural)]
pub struct FilterResourcesVirtual {
    pub source: BufferRef,
    pub target: BufferRef,
}

/// The filter pass's resolved resources.
#[derive(Debug, Copy, Clone, PartialEq, Eq, Structural)]
pub struct FilterResources {
    pub source: PhysicalBuffer,
    pub target: PhysicalBuffer,
}

impl PassResources for FilterResourcesVirtual {
    type Resources = FilterResources;

    open spec fn tag_spec() -> u64 {
        FILTER_SETUP_TAG
    }

    open spec fn reads_spec(self) -> Seq<ResourceId> {
        seq![self.source.id_spec()]
    }

    open spec fn writes_spec(self) -> Seq<ResourceId> {
        seq![self.target.id_spec()]
    }

    open spec fn from_virtual_spec(v: VirtualResources) -> Option<Self> {
        if v.reads@.len() == 1 && v.writes@.len() == 1 && v.reads@[0].kind == ResourceKind::Buffer
            && v.writes@[0].kind == ResourceKind::Buffer {
            Some(
                FilterResourcesVirtual {
                    source: BufferRef(v.reads@[0].index, v.reads@[0].frame),
                    target: BufferRef(v.writes@[0].index, v.writes@[0].frame),
                },
            )
        } else {
            None
        }
    }

    open spec fn resolvable(self, fg: FrameGraph) -> bool {
        &&& fg.resolution_wf()
        &&& fg.resolvable_id(self.source.id_spec())
        &&& fg.resolvable_id(self.target.id_spec())
    }

    open spec fn resources_ok(self, fg: FrameGraph, r: FilterResources) -> bool {
        &&& r.source.index == self.source.0
        &&& r.source.frame == self.source.1
        &&& fg.slot_matches(self.source.id_spec(), r.source.slot)
        &&& r.target.index == self.target.0
        &&& r.target.frame == self.target.1
        &&& fg.slot_matches(self.target.id_spec(), r.target.slot)
    }

    fn type_tag() -> (t: u64) {
        FILTER_SETUP_TAG
    }

    fn to_virtual(&self) -> (v: VirtualResources) {
        let mut reads: Vec<ResourceId> = Vec::new();
        reads.push(self.source.resource_id());
        let mut writes: Vec<ResourceId> = Vec::new();
        writes.push(self.target.resource_id());
        let v = VirtualResources { reads, writes };
        proof {
            assert(v.reads@ =~= self.reads_spec());
            assert(v.writes@ =~= self.writes_spec());
        }
        v
    }

    fn from_virtual(v: &VirtualResources) -> (r: Option<Self>) {
        if v.reads.len() == 1 && v.writes.len() == 1 {
            let s = v.reads[0];
            let t = v.writes[0];
            if matches!(s.kind, ResourceKind::Buffer) && matches!(t.kind, ResourceKind::Buffer) {
                Some(
                    FilterResourcesVirtual {
                        source: BufferRef(s.index, s.frame),
                        target: BufferRef(t.index, t.frame),
                    },
                )
            } else {
                None
            }
        } else {
            None
        }
    }

    fn acquire(&self, frame_graph: &FrameGraph) -> (r: FilterResources) {
        let source = match frame_graph.resolve_buffer(self.source) {
            Ok(p) => p,
            Err(_) => {
                // the compiled graph holds a slot for the source buffer
                proof {
                    assert(false);
                }
                PhysicalBuffer { index: 0, frame: 0, slot: 0 }
            },
        };
        let target = match frame_graph.resolve_buffer(self.target) {
            Ok(p) => p,
            Err(_) => {
                // the compiled graph holds a slot for the target buffer
                proof {
                    assert(false);
                }
                PhysicalBuffer { index: 0, frame: 0, slot: 0 }
            },
        };
        FilterResources { source, target }
    }
}

} // verus!
