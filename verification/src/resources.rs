//! The logical resource table. It assigns stable logical identities to the
//! buffers, images, buffer views and image views requested while the graph is
//! built, and records for each one its diagnostic name and frame offset.
//! Indices are assigned unconditionally; whether references are valid is
//! checked at compile time.

use vstd::prelude::*;
use vstd::string::StringExecFns;

use crate::types::BufferRef;
use crate::types::BufferViewRef;
use crate::types::Frame;
use crate::types::ImageRef;
use crate::types::ImageViewRef;
use crate::types::ResourceId;
use crate::types::ResourceKind;

verus! {

/// One entry of the logical resource table: the diagnostic name (names need
/// not be unique; they are metadata only) and the frame offset the resource
/// was declared at.
#[derive(Debug, Clone)]
pub struct ResourceInfo {
    pub name: String,
    pub frame: Frame,
}

/// The logical resource table, one dense list per resource kind. Each
/// creation appends an entry and hands back a handle holding the new index.
#[derive(Debug)]
pub struct LogicalResources {
    pub buffers: Vec<ResourceInfo>,
    pub buffer_views: Vec<ResourceInfo>,
    pub images: Vec<ResourceInfo>,
    pub image_views: Vec<ResourceInfo>,
}

impl LogicalResources {
    /// How many resources of the given kind have been created.
    pub open spec fn count_of(self, kind: ResourceKind) -> nat {
        match kind {
            ResourceKind::Buffer => self.buffers@.len(),
            ResourceKind::BufferView => self.buffer_views@.len(),
            ResourceKind::Image => self.images@.len(),
            ResourceKind::ImageView => self.image_views@.len(),
        }
    }

    /// The table has an entry for the identity's kind and index.
    pub open spec fn declares(self, r: ResourceId) -> bool {
        r.index < self.count_of(r.kind)
    }

    pub fn new() -> (r: Self)
        ensures
            r.buffers@.len() == 0,
            r.buffer_views@.len() == 0,
            r.images@.len() == 0,
            r.image_views@.len() == 0,
    {
        LogicalResources {
            buffers: Vec::new(),
            buffer_views: Vec::new(),
            images: Vec::new(),
            image_views: Vec::new(),
        }
    }

    /// Create a logical buffer: assigns the next buffer index and records
    /// the name and frame offset.
    pub fn add_buffer(&mut self, name: &str, frame: Frame) -> (r: BufferRef)
        ensures
            r.0 == old(self).buffers@.len(),
            r.1 == frame,
            final(self).buffers@.len() == old(self).buffers@.len() + 1,
            forall|i: int|
                0 <= i < old(self).buffers@.len() ==> final(self).buffers@[i] == old(
                    self,
                ).buffers@[i],
            final(self).buffers@.last().name@ == name@,
            final(self).buffers@.last().frame == frame,
            final(self).buffer_views == old(self).buffer_views,
            final(self).images == old(self).images,
            final(self).image_views == old(self).image_views,
    {
        let id = self.buffers.len();
        self.buffers.push(ResourceInfo { name: String::from_str(name), frame });
        BufferRef(id, frame)
    }

    /// Create a logical buffer view; symmetric to `add_buffer`.
    pub fn add_buffer_view(&mut self, name: &str, frame: Frame) -> (r: BufferViewRef)
        ensures
            r.0 == old(self).buffer_views@.len(),
            r.1 == frame,
            final(self).buffer_views@.len() == old(self).buffer_views@.len() + 1,
            forall|i: int|
                0 <= i < old(self).buffer_views@.len() ==> final(self).buffer_views@[i] == old(
                    self,
                ).buffer_views@[i],
            final(self).buffer_views@.last().name@ == name@,
            final(self).buffer_views@.last().frame == frame,
            final(self).buffers == old(self).buffers,
            final(self).images == old(self).images,
            final(self).image_views == old(self).image_views,
    {
        let id = self.buffer_views.len();
        self.buffer_views.push(ResourceInfo { name: String::from_str(name), frame });
        BufferViewRef(id, frame)
    }

    /// Create a logical image; symmetric to `add_buffer`.
    pub fn add_image(&mut self, name: &str, frame: Frame) -> (r: ImageRef)
        ensures
            r.0 == old(self).images@.len(),
            r.1 == frame,
            final(self).images@.len() == old(self).images@.len() + 1,
            forall|i: int|
                0 <= i < old(self).images@.len() ==> final(self).images@[i] == old(
                    self,
                ).images@[i],
            final(self).images@.last().name@ == name@,
            final(self).images@.last().frame == frame,
            final(self).buffers == old(self).buffers,
            final(self).buffer_views == old(self).buffer_views,
            final(self).image_views == old(self).image_views,
    {
        let id = self.images.len();
        self.images.push(ResourceInfo { name: String::from_str(name), frame });
        ImageRef(id, frame)
    }

    /// Create a logical image view; symmetric to `add_buffer`.
    pub fn add_image_view(&mut self, name: &str, frame: Frame) -> (r: ImageViewRef)
        ensures
            r.0 == old(self).image_views@.len(),
            r.1 == frame,
            final(self).image_views@.len() == old(self).image_views@.len() + 1,
            forall|i: int|
                0 <= i < old(self).image_views@.len() ==> final(self).image_views@[i] == old(
                    self,
                ).image_views@[i],
            final(self).image_views@.last().name@ == name@,
            final(self).image_views@.last().frame == frame,
            final(self).buffers == old(self).buffers,
            final(self).buffer_views == old(self).buffer_views,
            final(self).images == old(self).images,
    {
        let id = self.image_views.len();
        self.image_views.push(ResourceInfo { name: String::from_str(name), frame });
        ImageViewRef(id, frame)
    }
}

} // verus!
