//! Pass data storage: a dense, append-only store of type-erased pass setup
//! objects, one per registered pass, indexed by pass id. A type tag is
//! persisted beside each stored value and checked on retrieval, so a fetch at
//! the wrong type fails with `TypeMismatch` instead of handing back garbage.

use vstd::prelude::*;

use crate::types::FrameGraphError;
use crate::types::ResourceId;

verus! {

/// A pass's declared logical resource usage, in erased form: the identities
/// it reads and the identities it writes. This is the shape every setup
/// object is stored as; it holds only logical handles, never physical ones.
#[derive(Debug, Clone)]
pub struct VirtualResources {
    pub reads: Vec<ResourceId>,
    pub writes: Vec<ResourceId>,
}

impl VirtualResources {
    /// The pass reads or writes the resource.
    pub open spec fn touches(self, r: ResourceId) -> bool {
        self.reads@.contains(r) || self.writes@.contains(r)
    }

    /// The pass writes the resource.
    pub open spec fn writes_res(self, r: ResourceId) -> bool {
        self.writes@.contains(r)
    }
}

/// One stored setup object: the type tag recorded at store time, and the
/// erased value.
#[derive(Debug, Clone)]
pub struct StoredSetup {
    pub tag: u64,
    pub data: VirtualResources,
}

/// Dense, append-only store of type-erased pass setup objects.
#[derive(Debug)]
pub struct PassDataStorage {
    pub data: Vec<StoredSetup>,
}

impl PassDataStorage {
    pub fn new() -> (r: Self)
        ensures
            r.data@.len() == 0,
    {
        PassDataStorage { data: Vec::new() }
    }

    /// Append a setup object under the given type tag; returns its index.
    pub fn store(&mut self, tag: u64, setup: VirtualResources) -> (index: usize)
        ensures
            index == old(self).data@.len(),
            final(self).data@.len() == old(self).data@.len() + 1,
            forall|i: int|
                0 <= i < old(self).data@.len() ==> final(self).data@[i] == old(self).data@[i],
            final(self).data@.last().tag == tag,
            final(self).data@.last().data == setup,
    {
        let index = self.data.len();
        self.data.push(StoredSetup { tag, data: setup });
        index
    }

    /// Checked type recovery: hands the stored value back only when the tag
    /// recorded at store time matches the requested one, and fails with
    /// `TypeMismatch` otherwise.
    pub fn fetch(&self, index: usize, tag: u64) -> (r: Result<&VirtualResources, FrameGraphError>)
        requires
            index < self.data@.len(),
        ensures
            r is Ok <==> self.data@[index as int].tag == tag,
            r is Ok ==> *r->Ok_0 == self.data@[index as int].data,
            r is Err ==> r->Err_0 is TypeMismatch,
    {
        let stored = &self.data[index];
        if stored.tag == tag {
            Ok(&stored.data)
        } else {
            Err(FrameGraphError::TypeMismatch)
        }
    }
}

} // verus!
