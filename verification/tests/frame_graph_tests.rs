use frame_graph::builder::FrameGraphBuilder;
use frame_graph::filter::FilterResourcesVirtual;
use frame_graph::graph::PassResources;
use frame_graph::ocean::OceanResourcesVirtual;
use frame_graph::resources::LogicalResources;
use frame_graph::storage::PassDataStorage;
use frame_graph::storage::VirtualResources;
use frame_graph::types::BufferRef;
use frame_graph::types::CapabilitySet;
use frame_graph::types::Dependency;
use frame_graph::types::FrameGraphError;
use frame_graph::types::PassId;

fn graphics_family(builder: &mut FrameGraphBuilder) -> frame_graph::types::FamilyId {
    builder
        .register_queue_family(CapabilitySet::graphics(), 1)
        .expect("a graphics family with one queue registers")
}

#[test]
fn try_build() {
    let mut builder = FrameGraphBuilder::new();
    let family = graphics_family(&mut builder);
    let spectrum = builder.create_buffer("spectrum", 0);
    let pass = builder
        .add_graphic((family, 0), OceanResourcesVirtual { spectrum })
        .expect("the ocean pass registers");
    let frame_graph = builder.compile().expect("the one-pass graph compiles");
    for id in &frame_graph.order {
        let setup: OceanResourcesVirtual = frame_graph
            .fetch_pass(*id)
            .expect("the stored setup comes back at its own type");
        let resources = setup.acquire(&frame_graph);
        assert_eq!(resources.spectrum.index, spectrum.0);
    }
    assert_eq!(pass, PassId(0));
}

#[test]
fn logical_resources_assign_sequential_indices() {
    let mut table = LogicalResources::new();
    let first = table.add_buffer("a", 0);
    let second = table.add_buffer("b", -1);
    assert_eq!(first.0, 0);
    assert_eq!(first.1, 0);
    assert_eq!(second.0, 1);
    assert_eq!(second.1, -1);
}

#[test]
fn no_dependencies_compile_in_registration_order() {
    let mut builder = FrameGraphBuilder::new();
    let family = graphics_family(&mut builder);
    for name in ["a", "b", "c"] {
        let buffer = builder.create_buffer(name, 0);
        builder
            .add_graphic((family, 0), OceanResourcesVirtual { spectrum: buffer })
            .expect("each pass registers");
    }
    let graph = builder.compile().expect("an acyclic graph compiles");
    assert_eq!(graph.order, vec![PassId(0), PassId(1), PassId(2)]);
}

#[test]
fn cycle_of_two_is_rejected_listing_both() {
    let mut builder = FrameGraphBuilder::new();
    let family = graphics_family(&mut builder);
    for name in ["a", "b"] {
        let buffer = builder.create_buffer(name, 0);
        builder
            .add_graphic((family, 0), OceanResourcesVirtual { spectrum: buffer })
            .expect("each pass registers");
    }
    builder
        .add_dependency(Dependency { start: PassId(0), end: PassId(1) })
        .expect("the forward edge is valid");
    builder
        .add_dependency(Dependency { start: PassId(1), end: PassId(0) })
        .expect("the backward edge is valid");
    match builder.compile() {
        Err(FrameGraphError::CyclicDependency(cycle)) => {
            assert_eq!(cycle, vec![PassId(0), PassId(1)]);
        }
        other => panic!("expected a cyclic dependency error, got {:?}", other.is_ok()),
    }
}

#[test]
fn cycle_report_lists_exactly_the_cycle() {
    let mut builder = FrameGraphBuilder::new();
    let family = graphics_family(&mut builder);
    for name in ["free", "a", "b", "c"] {
        let buffer = builder.create_buffer(name, 0);
        builder
            .add_graphic((family, 0), OceanResourcesVirtual { spectrum: buffer })
            .expect("each pass registers");
    }
    for (s, e) in [(1, 2), (2, 3), (3, 1)] {
        builder
            .add_dependency(Dependency { start: PassId(s), end: PassId(e) })
            .expect("each cycle edge is valid");
    }
    match builder.compile() {
        Err(FrameGraphError::CyclicDependency(cycle)) => {
            assert_eq!(cycle, vec![PassId(1), PassId(2), PassId(3)]);
        }
        other => panic!("expected a cyclic dependency error, got {:?}", other.is_ok()),
    }
}

#[test]
fn disjoint_live_ranges_share_a_slot() {
    let mut builder = FrameGraphBuilder::new();
    let family = graphics_family(&mut builder);
    let first = builder.create_buffer("a", 0);
    let second = builder.create_buffer("b", 0);
    builder
        .add_graphic((family, 0), OceanResourcesVirtual { spectrum: first })
        .expect("the first pass registers");
    builder
        .add_graphic((family, 0), OceanResourcesVirtual { spectrum: second })
        .expect("the second pass registers");
    let graph = builder.compile().expect("two independent passes compile");
    let slot_a = graph.resolve_buffer(first).expect("the first buffer resolves").slot;
    let slot_b = graph.resolve_buffer(second).expect("the second buffer resolves").slot;
    assert_eq!(slot_a, 0);
    assert_eq!(slot_b, 0);
}

#[test]
fn overlapping_live_ranges_get_distinct_slots() {
    let mut builder = FrameGraphBuilder::new();
    let family = graphics_family(&mut builder);
    let source = builder.create_buffer("scene", 0);
    let target = builder.create_buffer("blurred", 0);
    builder
        .add_graphic((family, 0), OceanResourcesVirtual { spectrum: source })
        .expect("the producing pass registers");
    builder
        .add_graphic((family, 0), FilterResourcesVirtual { source, target })
        .expect("the filter pass registers");
    builder
        .add_dependency(Dependency { start: PassId(0), end: PassId(1) })
        .expect("the edge is valid");
    let graph = builder.compile().expect("the synchronized graph compiles");
    let slot_source = graph.resolve_buffer(source).expect("the source resolves").slot;
    let slot_target = graph.resolve_buffer(target).expect("the target resolves").slot;
    assert_eq!(slot_source, 0);
    assert_eq!(slot_target, 1);
    assert_ne!(slot_source, slot_target);
}

#[test]
fn created_buffer_round_trips_through_acquire() {
    let mut builder = FrameGraphBuilder::new();
    let family = graphics_family(&mut builder);
    let x = builder.create_buffer("x", 0);
    builder
        .add_graphic((family, 0), OceanResourcesVirtual { spectrum: x })
        .expect("the pass registers");
    let graph = builder.compile().expect("the graph compiles");
    let setup: OceanResourcesVirtual =
        graph.fetch_pass(PassId(0)).expect("the setup comes back");
    assert_eq!(setup.spectrum, x);
    let resources = setup.acquire(&graph);
    assert_eq!(resources.spectrum.index, x.0);
    assert_eq!(resources.spectrum.frame, 0);
}

#[test]
fn fetch_with_mismatched_tag_fails() {
    let mut storage = PassDataStorage::new();
    let index = storage.store(7, VirtualResources { reads: Vec::new(), writes: Vec::new() });
    assert!(matches!(storage.fetch(index, 7), Ok(_)));
    assert!(matches!(storage.fetch(index, 9), Err(FrameGraphError::TypeMismatch)));
}

#[test]
fn fetch_pass_at_wrong_type_fails() {
    let mut builder = FrameGraphBuilder::new();
    let family = graphics_family(&mut builder);
    let buffer = builder.create_buffer("a", 0);
    builder
        .add_graphic((family, 0), OceanResourcesVirtual { spectrum: buffer })
        .expect("the pass registers");
    let graph = builder.compile().expect("the graph compiles");
    let wrong: Result<FilterResourcesVirtual, FrameGraphError> = graph.fetch_pass(PassId(0));
    assert!(matches!(wrong, Err(FrameGraphError::TypeMismatch)));
    let right: Result<OceanResourcesVirtual, FrameGraphError> = graph.fetch_pass(PassId(0));
    assert!(right.is_ok());
}

fn diamond_builder() -> FrameGraphBuilder {
    let mut builder = FrameGraphBuilder::new();
    let family = graphics_family(&mut builder);
    let shared = builder.create_buffer("shared", 0);
    let left = builder.create_buffer("left", 0);
    let right = builder.create_buffer("right", 0);
    builder
        .add_graphic((family, 0), OceanResourcesVirtual { spectrum: shared })
        .expect("the root pass registers");
    builder
        .add_graphic((family, 0), FilterResourcesVirtual { source: shared, target: left })
        .expect("the left pass registers");
    builder
        .add_graphic((family, 0), FilterResourcesVirtual { source: shared, target: right })
        .expect("the right pass registers");
    builder
        .add_dependency(Dependency { start: PassId(0), end: PassId(1) })
        .expect("the left edge is valid");
    builder
        .add_dependency(Dependency { start: PassId(0), end: PassId(2) })
        .expect("the right edge is valid");
    builder
}

#[test]
fn root_precedes_both_dependents_and_order_is_stable() {
    let first = diamond_builder().compile().expect("the diamond compiles");
    let second = diamond_builder().compile().expect("the diamond compiles again");
    let pos = |graph: &frame_graph::graph::FrameGraph, p: PassId| {
        graph.order.iter().position(|q| *q == p).expect("every pass is ordered")
    };
    assert!(pos(&first, PassId(0)) < pos(&first, PassId(1)));
    assert!(pos(&first, PassId(0)) < pos(&first, PassId(2)));
    assert_eq!(first.order, second.order);
}

#[test]
fn unsynchronized_writes_are_rejected() {
    let mut builder = FrameGraphBuilder::new();
    let family = graphics_family(&mut builder);
    let buffer = builder.create_buffer("contested", 0);
    builder
        .add_graphic((family, 0), OceanResourcesVirtual { spectrum: buffer })
        .expect("the first writer registers");
    builder
        .add_graphic((family, 0), OceanResourcesVirtual { spectrum: BufferRef(0, 0) })
        .expect("the second writer registers");
    match builder.compile() {
        Err(FrameGraphError::UnsynchronizedAccess(p, q)) => {
            assert_eq!(p, PassId(0));
            assert_eq!(q, PassId(1));
        }
        other => panic!("expected an unsynchronized access error, got {:?}", other.is_ok()),
    }
}

#[test]
fn previous_frame_reference_resolves_to_previous_slot() {
    let mut history_builder = FrameGraphBuilder::new();
    let family = graphics_family(&mut history_builder);
    let history = history_builder.create_buffer("history", 0);
    history_builder
        .add_graphic((family, 0), OceanResourcesVirtual { spectrum: history })
        .expect("the history pass registers");
    let history_graph = history_builder.compile().expect("the history frame compiles");
    let history_slot = history_graph
        .resolve_buffer(BufferRef(0, 0))
        .expect("the history buffer resolves in its own frame")
        .slot;

    let mut builder = FrameGraphBuilder::new();
    let family = graphics_family(&mut builder);
    let target = builder.create_buffer("resolved", 0);
    builder
        .add_graphic((family, 0), FilterResourcesVirtual { source: BufferRef(0, -1), target })
        .expect("the temporal pass registers");
    let graph = builder
        .compile_with_history(&history_graph)
        .expect("the temporal frame compiles against the history frame");
    let resolved = graph
        .resolve_buffer(BufferRef(0, -1))
        .expect("the previous-frame reference resolves");
    assert_eq!(resolved.slot, history_slot);
    assert_eq!(resolved.frame, -1);
    assert_eq!(resolved.index, 0);
}

#[test]
fn empty_queue_family_is_rejected() {
    let mut builder = FrameGraphBuilder::new();
    let rejected = builder.register_queue_family(CapabilitySet::graphics(), 0);
    assert!(matches!(rejected, Err(FrameGraphError::EmptyQueueFamily)));
    let accepted = builder.register_queue_family(CapabilitySet::general(), 2);
    assert!(accepted.is_ok());
    assert_eq!(accepted.unwrap().index, 0);
}

#[test]
fn capability_mismatch_is_rejected() {
    let mut builder = FrameGraphBuilder::new();
    let transfer = builder
        .register_queue_family(CapabilitySet::transfer(), 1)
        .expect("the transfer family registers");
    let compute = builder
        .register_queue_family(CapabilitySet::compute(), 1)
        .expect("the compute family registers");
    let general = builder
        .register_queue_family(CapabilitySet::general(), 1)
        .expect("the general family registers");
    let buffer = builder.create_buffer("a", 0);
    let setup = OceanResourcesVirtual { spectrum: buffer };
    assert!(matches!(
        builder.add_graphic((transfer, 0), setup),
        Err(FrameGraphError::CapabilityMismatch)
    ));
    assert!(matches!(
        builder.add_graphic((compute, 0), setup),
        Err(FrameGraphError::CapabilityMismatch)
    ));
    assert!(builder.add_compute((compute, 0), setup).is_ok());
    assert!(builder.add_graphic((general, 0), setup).is_ok());
    // a queue index past the family's declared count is rejected too
    assert!(matches!(
        builder.add_graphic((general, 1), setup),
        Err(FrameGraphError::CapabilityMismatch)
    ));
}

#[test]
fn invalid_dependencies_are_rejected() {
    let mut builder = FrameGraphBuilder::new();
    let family = graphics_family(&mut builder);
    let buffer = builder.create_buffer("a", 0);
    builder
        .add_graphic((family, 0), OceanResourcesVirtual { spectrum: buffer })
        .expect("the pass registers");
    assert!(matches!(
        builder.add_dependency(Dependency { start: PassId(0), end: PassId(0) }),
        Err(FrameGraphError::InvalidDependency)
    ));
    assert!(matches!(
        builder.add_dependency(Dependency { start: PassId(0), end: PassId(3) }),
        Err(FrameGraphError::InvalidDependency)
    ));
}

#[test]
fn unknown_resource_references_are_rejected() {
    let mut builder = FrameGraphBuilder::new();
    let family = graphics_family(&mut builder);
    builder
        .add_graphic((family, 0), OceanResourcesVirtual { spectrum: BufferRef(7, 0) })
        .expect("the pass registers before validation");
    assert!(matches!(builder.compile(), Err(FrameGraphError::UnknownResourceReference)));

    let mut future = FrameGraphBuilder::new();
    let family = graphics_family(&mut future);
    let buffer = future.create_buffer("a", 1);
    future
        .add_graphic((family, 0), OceanResourcesVirtual { spectrum: buffer })
        .expect("the pass registers before validation");
    assert!(matches!(future.compile(), Err(FrameGraphError::UnknownResourceReference)));

    let mut temporal = FrameGraphBuilder::new();
    let family = graphics_family(&mut temporal);
    let target = temporal.create_buffer("out", 0);
    temporal
        .add_graphic((family, 0), FilterResourcesVirtual { source: BufferRef(0, -1), target })
        .expect("the pass registers before validation");
    // without a previous frame's graph there is nothing to resolve against
    assert!(matches!(temporal.compile(), Err(FrameGraphError::UnknownResourceReference)));
}
