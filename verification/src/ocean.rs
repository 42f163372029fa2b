//! A sample pass setup: an ocean-simulation pass whose only virtual resource
//! is the spectrum buffer it writes. It shows how a setup type implements
//! the pass resource capability end to end.

use vstd::prelude::*;

use crate::graph::FrameGraph;
use crate::graph::PassResources;
use crate::storage::VirtualResources;
use crate::types::BufferRef;
use crate::types::PhysicalBuffer;
use crate::types::ResourceId;
use crate::types::ResourceKind;

verus! {

/// The type tag the ocean setup is stored under.
pub const OCEAN_SETUP_TAG: u64 = 1;

/// The ocean pass's virtual resources: the logical spectrum buffer.
#[derive(Debug, Copy, Clone, PartialEq, Eq, Structural)]
pub struct OceanResourcesVirtual {
    pub spectrum: BufferRef,
}

/// The ocean pass's resolved resources: the physical spectrum buffer.
#[derive(Debug, Copy, Clone, PartialEq, Eq, Structural)]
pub struct OceanResources {
    pub spectrum: PhysicalBuffer,
}

impl PassResources for OceanResourcesVirtual {
    type Resources = OceanResources;

    open spec fn tag_spec() -> u64 {
        OCEAN_SETUP_TAG
    }

    open spec fn reads_spec(self) -> Seq<ResourceId> {
        Seq::empty()
    }

    open spec fn writes_spec(self) -> Seq<ResourceId> {
        seq![self.spectrum.id_spec()]
    }

    open spec fn from_virtual_spec(v: VirtualResources) -> Option<Self> {
        if v.reads@.len() == 0 && v.writes@.len() == 1 && v.writes@[0].kind
            == ResourceKind::Buffer {
            Some(
                OceanResourcesVirtual {
                    spectrum: BufferRef(v.writes@[0].index, v.writes@[0].frame),
                },
            )
        } else {
            None
        }
    }

    open spec fn resolvable(self, fg: FrameGraph) -> bool {
        &&& fg.resolution_wf()
        &&& fg.resolvable_id(self.spectrum.id_spec())
    }

    open spec fn resources_ok(self, fg: FrameGraph, r: OceanResources) -> bool {
        &&& r.spectrum.index == self.spectrum.0
        &&& r.spectrum.frame == self.spectrum.1
        &&& fg.slot_matches(self.spectrum.id_spec(), r.spectrum.slot)
    }

    fn type_tag() -> (t: u64) {
        OCEAN_SETUP_TAG
    }

    fn to_virtual(&self) -> (v: VirtualResources) {
        let mut writes: Vec<ResourceId> = Vec::new();
        writes.push(self.spectrum.resource_id());
        let v = VirtualResources { reads: Vec::new(), writes };
        proof {
            assert(v.writes@ =~= self.writes_spec());
            assert(v.reads@ =~= self.reads_spec());
        }
        v
    }

    fn from_virtual(v: &VirtualResources) -> (r: Option<Self>) {
        if v.reads.len() == 0 && v.writes.len() == 1 {
            let w = v.writes[0];
            if matches!(w.kind, ResourceKind::Buffer) {
                Some(OceanResourcesVirtual { spectrum: BufferRef(w.index, w.frame) })
            } else {
                None
            }
        } else {
            None
        }
    }

    fn acquire(&self, frame_graph: &FrameGraph) -> (r: OceanResources) {
        match frame_graph.resolve_buffer(self.spectrum) {
            Ok(p) => OceanResources { spectrum: p },
            Err(_) => {
                // the compiled graph holds a slot for the spectrum buffer,
                // so resolution cannot fail
                proof {
                    assert(false);
                }
                OceanResources { spectrum: PhysicalBuffer { index: 0, frame: 0, slot: 0 } }
            },
        }
    }
}

} // verus!
