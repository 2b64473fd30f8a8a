use attachment_loader::nodes::LoadingNodes;
use attachment_loader::pipeline::finish_loading_attachment_from_disk;
use attachment_loader::pipeline::start_loading_attachment_from_disk;
use attachment_loader::pipeline::{CompletionOutcome, LoadProbe, LoadState};
use attachment_loader::registry::{TextureAttachmentFromDisk, TextureAttachmentFromDiskLoader};
use attachment_loader::source_path::{attachment_source_path, u32_decimal};
use attachment_loader::texture::{NodeAttachment, ResidentImage, TextureDescriptor};
use attachment_loader::AttachmentError;

fn descriptor(width: u32, format: u32) -> TextureDescriptor {
    TextureDescriptor {
        width,
        height: width,
        mip_level_count: 1,
        sample_count: 1,
        dimension: 2,
        format,
        usage: 5,
    }
}

fn height_attachment() -> TextureAttachmentFromDisk {
    TextureAttachmentFromDisk {
        path: String::from("terrain/height"),
        texture_descriptor: descriptor(512, 10),
    }
}

fn default_image() -> ResidentImage {
    ResidentImage {
        texture_descriptor: descriptor(1, 0),
    }
}

#[test]
fn decimal_rendering() {
    assert_eq!(u32_decimal(0), "0");
    assert_eq!(u32_decimal(7), "7");
    assert_eq!(u32_decimal(42), "42");
    assert_eq!(u32_decimal(1000), "1000");
    assert_eq!(u32_decimal(u32::MAX), "4294967295");
}

#[test]
fn source_path_substitutes_node_id() {
    assert_eq!(
        attachment_source_path("terrain/height", 42),
        "terrain/height/42.png"
    );
    assert_eq!(attachment_source_path("", 0), "/0.png");
}

#[test]
fn source_paths_follow_registry_order() {
    let mut config = TextureAttachmentFromDiskLoader::new();
    config.add_attachment(String::from("height"), height_attachment());
    config.add_attachment(
        String::from("albedo"),
        TextureAttachmentFromDisk {
            path: String::from("terrain/albedo"),
            texture_descriptor: descriptor(256, 11),
        },
    );
    let paths = config.source_paths(7);
    assert_eq!(paths.len(), 2);
    assert_eq!(paths[0], "terrain/height/7.png");
    assert_eq!(paths[1], "terrain/albedo/7.png");
}

#[test]
fn fast_path_marks_loaded_without_correlation() {
    let mut config = TextureAttachmentFromDiskLoader::new();
    config.add_attachment(String::from("height"), height_attachment());
    let mut nodes = LoadingNodes::new();
    nodes.begin_loading(42);

    let probes = vec![LoadProbe {
        handle: 7,
        state: LoadState::Loaded,
    }];
    let r = start_loading_attachment_from_disk(&mut config, &mut nodes, 42, &probes);
    assert!(r.is_ok());

    let node = nodes.node(42).expect("node 42 is loading");
    let reports = node.loaded_reports();
    assert_eq!(reports.len(), 1);
    assert_eq!(reports[0], "height");
    assert!(!config.contains_handle(7));
    let slots = node.attachment_slots();
    assert_eq!(slots.len(), 1);
    assert_eq!(slots[0].0, "height");
    assert_eq!(slots[0].1, NodeAttachment::Texture { handle: 7 });
}

#[test]
fn slow_path_records_correlation_and_defers_report() {
    let mut config = TextureAttachmentFromDiskLoader::new();
    config.add_attachment(String::from("height"), height_attachment());
    let mut nodes = LoadingNodes::new();
    nodes.begin_loading(42);

    let probes = vec![LoadProbe {
        handle: 1,
        state: LoadState::Pending,
    }];
    let r = start_loading_attachment_from_disk(&mut config, &mut nodes, 42, &probes);
    assert!(r.is_ok());

    let node = nodes.node(42).expect("node 42 is loading");
    assert_eq!(node.loaded_reports().len(), 0);
    assert!(config.contains_handle(1));
    let slots = node.attachment_slots();
    assert_eq!(slots.len(), 1);
    assert_eq!(slots[0].1, NodeAttachment::Texture { handle: 1 });
}

#[test]
fn completion_correlates_exactly_once() {
    let mut config = TextureAttachmentFromDiskLoader::new();
    config.add_attachment(String::from("height"), height_attachment());
    let mut nodes = LoadingNodes::new();
    nodes.begin_loading(42);
    let probes = vec![LoadProbe {
        handle: 1,
        state: LoadState::Pending,
    }];
    start_loading_attachment_from_disk(&mut config, &mut nodes, 42, &probes).unwrap();

    let mut image = default_image();
    let outcome = finish_loading_attachment_from_disk(&mut config, &mut nodes, 1, &mut image);
    match outcome {
        Ok(CompletionOutcome::Completed { node_id, label }) => {
            assert_eq!(node_id, 42);
            assert_eq!(label, "height");
        }
        other => panic!("expected a completed attachment, got {:?}", other),
    }
    assert!(!config.contains_handle(1));
    let node = nodes.node(42).expect("node 42 is loading");
    assert_eq!(node.loaded_reports().len(), 1);
    assert_eq!(node.loaded_reports()[0], "height");

    let mut image2 = default_image();
    let again = finish_loading_attachment_from_disk(&mut config, &mut nodes, 1, &mut image2);
    assert!(matches!(again, Ok(CompletionOutcome::Unmatched)));
    assert_eq!(nodes.node(42).unwrap().loaded_reports().len(), 1);
    assert_eq!(image2, default_image());
}

#[test]
fn completion_applies_declared_layout() {
    let mut config = TextureAttachmentFromDiskLoader::new();
    config.add_attachment(String::from("height"), height_attachment());
    let mut nodes = LoadingNodes::new();
    nodes.begin_loading(42);
    let probes = vec![LoadProbe {
        handle: 1,
        state: LoadState::Pending,
    }];
    start_loading_attachment_from_disk(&mut config, &mut nodes, 42, &probes).unwrap();

    let mut image = default_image();
    assert_ne!(image.texture_descriptor, descriptor(512, 10));
    finish_loading_attachment_from_disk(&mut config, &mut nodes, 1, &mut image).unwrap();
    assert_eq!(image.texture_descriptor, descriptor(512, 10));
}

#[test]
fn foreign_ticket_leaves_other_context_untouched() {
    let mut context_a = TextureAttachmentFromDiskLoader::new();
    context_a.add_attachment(String::from("height"), height_attachment());
    let mut nodes_a = LoadingNodes::new();
    nodes_a.begin_loading(1);
    let probes = vec![LoadProbe {
        handle: 90,
        state: LoadState::Pending,
    }];
    start_loading_attachment_from_disk(&mut context_a, &mut nodes_a, 1, &probes).unwrap();

    let mut context_b = TextureAttachmentFromDiskLoader::new();
    context_b.add_attachment(String::from("height"), height_attachment());
    let mut nodes_b = LoadingNodes::new();
    nodes_b.begin_loading(2);
    let probes_b = vec![LoadProbe {
        handle: 91,
        state: LoadState::Pending,
    }];
    start_loading_attachment_from_disk(&mut context_b, &mut nodes_b, 2, &probes_b).unwrap();

    // Ticket 90 belongs to context A; context B must ignore it untouched.
    let mut image = default_image();
    let outcome = finish_loading_attachment_from_disk(&mut context_b, &mut nodes_b, 90, &mut image);
    assert!(matches!(outcome, Ok(CompletionOutcome::Unmatched)));
    assert!(context_b.contains_handle(91));
    assert_eq!(nodes_b.node(2).unwrap().loaded_reports().len(), 0);
    assert_eq!(image, default_image());

    // Context A still claims it exactly as recorded.
    let outcome = finish_loading_attachment_from_disk(&mut context_a, &mut nodes_a, 90, &mut image);
    match outcome {
        Ok(CompletionOutcome::Completed { node_id, label }) => {
            assert_eq!(node_id, 1);
            assert_eq!(label, "height");
        }
        other => panic!("expected context A to claim ticket 90, got {:?}", other),
    }
}

#[test]
fn registering_twice_keeps_only_second_definition() {
    let mut config = TextureAttachmentFromDiskLoader::new();
    config.add_attachment(
        String::from("height"),
        TextureAttachmentFromDisk {
            path: String::from("old/height"),
            texture_descriptor: descriptor(128, 1),
        },
    );
    config.add_attachment(String::from("height"), height_attachment());

    assert_eq!(config.definitions().len(), 1);
    let def = config
        .get_attachment(&String::from("height"))
        .expect("height is registered");
    assert_eq!(def.path, "terrain/height");
    assert_eq!(def.texture_descriptor, descriptor(512, 10));
    let paths = config.source_paths(3);
    assert_eq!(paths.len(), 1);
    assert_eq!(paths[0], "terrain/height/3.png");
}

#[test]
fn dispatch_for_unknown_node_fails() {
    let mut config = TextureAttachmentFromDiskLoader::new();
    config.add_attachment(String::from("height"), height_attachment());
    let mut nodes = LoadingNodes::new();
    let probes = vec![LoadProbe {
        handle: 1,
        state: LoadState::Pending,
    }];
    let r = start_loading_attachment_from_disk(&mut config, &mut nodes, 42, &probes);
    assert_eq!(r, Err(AttachmentError::UnknownNode));
    assert!(!config.contains_handle(1));
}

#[test]
fn recording_a_ticket_twice_fails() {
    let mut config = TextureAttachmentFromDiskLoader::new();
    assert!(config.record(1, 42, String::from("height")).is_ok());
    assert_eq!(
        config.record(1, 43, String::from("albedo")),
        Err(AttachmentError::DuplicateTicket)
    );
    // The original entry is untouched.
    assert_eq!(config.consume(1), Some((42, String::from("height"))));
}

#[test]
fn dispatch_with_recorded_ticket_fails_and_changes_nothing() {
    let mut config = TextureAttachmentFromDiskLoader::new();
    config.add_attachment(String::from("height"), height_attachment());
    config.record(1, 7, String::from("height")).unwrap();
    let mut nodes = LoadingNodes::new();
    nodes.begin_loading(42);
    let probes = vec![LoadProbe {
        handle: 1,
        state: LoadState::Pending,
    }];
    let r = start_loading_attachment_from_disk(&mut config, &mut nodes, 42, &probes);
    assert_eq!(r, Err(AttachmentError::DuplicateTicket));
    assert_eq!(nodes.node(42).unwrap().attachment_slots().len(), 0);
    assert_eq!(config.consume(1), Some((7, String::from("height"))));
}

#[test]
fn completion_for_unregistered_label_fails() {
    let mut config = TextureAttachmentFromDiskLoader::new();
    config.add_attachment(String::from("height"), height_attachment());
    config.record(5, 42, String::from("albedo")).unwrap();
    let mut nodes = LoadingNodes::new();
    nodes.begin_loading(42);

    let mut image = default_image();
    let r = finish_loading_attachment_from_disk(&mut config, &mut nodes, 5, &mut image);
    assert_eq!(r.unwrap_err(), AttachmentError::UnknownLabel);
    assert_eq!(image, default_image());
    assert_eq!(nodes.node(42).unwrap().loaded_reports().len(), 0);

    // The entry was still consumed: the same ticket is now unknown.
    let r = finish_loading_attachment_from_disk(&mut config, &mut nodes, 5, &mut image);
    assert!(matches!(r, Ok(CompletionOutcome::Unmatched)));
}

#[test]
fn completion_for_discarded_node_drops_report() {
    let mut config = TextureAttachmentFromDiskLoader::new();
    config.add_attachment(String::from("height"), height_attachment());
    let mut nodes = LoadingNodes::new();
    nodes.begin_loading(42);
    let probes = vec![LoadProbe {
        handle: 1,
        state: LoadState::Pending,
    }];
    start_loading_attachment_from_disk(&mut config, &mut nodes, 42, &probes).unwrap();
    nodes.discard(42);

    let mut image = default_image();
    let outcome = finish_loading_attachment_from_disk(&mut config, &mut nodes, 1, &mut image);
    match outcome {
        Ok(CompletionOutcome::NodeGone { node_id, label }) => {
            assert_eq!(node_id, 42);
            assert_eq!(label, "height");
        }
        other => panic!("expected the report to be dropped, got {:?}", other),
    }
    // The declared layout is still applied to the resident image.
    assert_eq!(image.texture_descriptor, descriptor(512, 10));
    assert!(!config.contains_handle(1));
}

#[test]
fn empty_registry_dispatch_is_legal() {
    let mut config = TextureAttachmentFromDiskLoader::new();
    let mut nodes = LoadingNodes::new();
    nodes.begin_loading(42);
    let probes: Vec<LoadProbe> = Vec::new();
    let r = start_loading_attachment_from_disk(&mut config, &mut nodes, 42, &probes);
    assert!(r.is_ok());
    let node = nodes.node(42).unwrap();
    assert_eq!(node.loaded_reports().len(), 0);
    assert_eq!(node.attachment_slots().len(), 0);
}

#[test]
fn fan_out_mixes_fast_and_slow_paths() {
    let mut config = TextureAttachmentFromDiskLoader::new();
    config.add_attachment(String::from("height"), height_attachment());
    config.add_attachment(
        String::from("albedo"),
        TextureAttachmentFromDisk {
            path: String::from("terrain/albedo"),
            texture_descriptor: descriptor(256, 11),
        },
    );
    let mut nodes = LoadingNodes::new();
    nodes.begin_loading(42);
    let probes = vec![
        LoadProbe {
            handle: 10,
            state: LoadState::Loaded,
        },
        LoadProbe {
            handle: 11,
            state: LoadState::Pending,
        },
    ];
    start_loading_attachment_from_disk(&mut config, &mut nodes, 42, &probes).unwrap();

    {
        let node = nodes.node(42).unwrap();
        assert_eq!(node.loaded_reports().len(), 1);
        assert_eq!(node.loaded_reports()[0], "height");
        assert_eq!(node.attachment_slots().len(), 2);
        assert_eq!(node.attachment_slots()[0].0, "height");
        assert_eq!(node.attachment_slots()[1].0, "albedo");
    }
    assert!(!config.contains_handle(10));
    assert!(config.contains_handle(11));

    let mut image = default_image();
    let outcome = finish_loading_attachment_from_disk(&mut config, &mut nodes, 11, &mut image);
    match outcome {
        Ok(CompletionOutcome::Completed { node_id, label }) => {
            assert_eq!(node_id, 42);
            assert_eq!(label, "albedo");
        }
        other => panic!("expected albedo to complete, got {:?}", other),
    }
    assert_eq!(image.texture_descriptor, descriptor(256, 11));
    let node = nodes.node(42).unwrap();
    assert_eq!(node.loaded_reports().len(), 2);
    assert_eq!(node.loaded_reports()[1], "albedo");
}

#[test]
fn consuming_an_unknown_ticket_returns_nothing() {
    let mut config = TextureAttachmentFromDiskLoader::new();
    assert_eq!(config.consume(99), None);
    config.record(1, 5, String::from("height")).unwrap();
    assert_eq!(config.consume(99), None);
    assert!(config.contains_handle(1));
}
