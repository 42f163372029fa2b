//! A frame graph builder: a declarative description, for one rendering
//! frame, of the render passes, the logical resources they read and write,
//! and the execution-order constraints between them. Compilation orders the
//! passes topologically, computes the live range of every logical resource,
//! and aliases logical resources onto shared physical slots whenever their
//! live ranges never overlap.

pub mod builder;
pub mod compile;
pub mod filter;
pub mod graph;
pub mod laws;
pub mod ocean;
pub mod resources;
pub mod storage;
pub mod types;

pub use builder::FrameGraphBuilder;
pub use builder::QueueFamily;
pub use filter::FilterResources;
pub use filter::FilterResourcesVirtual;
pub use graph::FrameGraph;
pub use graph::PassResources;
pub use ocean::OceanResources;
pub use ocean::OceanResourcesVirtual;
pub use resources::LogicalResources;
pub use resources::ResourceInfo;
pub use storage::PassDataStorage;
pub use storage::StoredSetup;
pub use storage::VirtualResources;
pub use types::BufferRef;
pub use types::BufferViewRef;
pub use types::CapabilitySet;
pub use types::Dependency;
pub use types::FamilyId;
pub use types::Frame;
pub use types::FrameGraphError;
pub use types::ImageRef;
pub use types::ImageViewRef;
pub use types::PassId;
pub use types::PhysicalBuffer;
pub use types::PhysicalResource;
pub use types::QueueCount;
pub use types::QueueId;
pub use types::ResourceId;
pub use types::ResourceKind;
