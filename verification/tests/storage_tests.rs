//! Tests of the in-memory storage core against the command protocol.

use flo_core::protocol::{StorageCommand, StorageResponse, TIME_UNBOUNDED};
use flo_core::store::InMemoryStorageCore;

fn run(core: &mut InMemoryStorageCore, commands: Vec<StorageCommand>) -> Vec<StorageResponse> {
    core.run_commands(commands)
}

#[test]
fn animation_properties_round() {
    let mut core = InMemoryStorageCore::new();
    let rs = run(&mut core, vec![StorageCommand::ReadAnimationProperties]);
    assert_eq!(rs, vec![StorageResponse::NotFound]);
    let rs = run(
        &mut core,
        vec![
            StorageCommand::WriteAnimationProperties(vec![1, 2, 3]),
            StorageCommand::ReadAnimationProperties,
        ],
    );
    assert_eq!(
        rs,
        vec![
            StorageResponse::Updated,
            StorageResponse::AnimationProperties(vec![1, 2, 3]),
        ]
    );
}

#[test]
fn edit_log_appends_in_order() {
    let mut core = InMemoryStorageCore::new();
    let rs = run(
        &mut core,
        vec![
            StorageCommand::ReadEditLogLength,
            StorageCommand::WriteEdit(vec![10]),
            StorageCommand::WriteEdit(vec![20]),
            StorageCommand::ReadEditLogLength,
            StorageCommand::ReadEdits(0, 2),
        ],
    );
    assert_eq!(
        rs,
        vec![
            StorageResponse::NumberOfEdits(0),
            StorageResponse::Updated,
            StorageResponse::Updated,
            StorageResponse::NumberOfEdits(2),
            StorageResponse::Edit(0, vec![10]),
            StorageResponse::Edit(1, vec![20]),
        ]
    );
}

#[test]
fn highest_unused_element_id_starts_at_zero() {
    let mut core = InMemoryStorageCore::new();
    let rs = run(&mut core, vec![StorageCommand::ReadHighestUnusedElementId]);
    assert_eq!(rs, vec![StorageResponse::HighestUnusedElementId(0)]);
}

#[test]
fn highest_unused_element_id_after_write_five_is_six() {
    let mut core = InMemoryStorageCore::new();
    let rs = run(
        &mut core,
        vec![
            StorageCommand::WriteElement(5, vec![0]),
            StorageCommand::ReadHighestUnusedElementId,
        ],
    );
    assert_eq!(
        rs,
        vec![
            StorageResponse::Updated,
            StorageResponse::HighestUnusedElementId(6),
        ]
    );
}

#[test]
fn element_write_read_delete() {
    let mut core = InMemoryStorageCore::new();
    let rs = run(
        &mut core,
        vec![
            StorageCommand::ReadElement(7),
            StorageCommand::WriteElement(7, vec![9, 9]),
            StorageCommand::ReadElement(7),
            StorageCommand::DeleteElement(7),
            StorageCommand::ReadElement(7),
        ],
    );
    assert_eq!(
        rs,
        vec![
            StorageResponse::NotFound,
            StorageResponse::Updated,
            StorageResponse::Element(7, vec![9, 9]),
            StorageResponse::Updated,
            StorageResponse::NotFound,
        ]
    );
}

#[test]
fn layers_are_listed_ascending_by_id() {
    let mut core = InMemoryStorageCore::new();
    let rs = run(
        &mut core,
        vec![
            StorageCommand::AddLayer(4, vec![4]),
            StorageCommand::AddLayer(1, vec![1]),
            StorageCommand::AddLayer(9, vec![9]),
            StorageCommand::ReadLayers,
        ],
    );
    assert_eq!(
        rs,
        vec![
            StorageResponse::Updated,
            StorageResponse::Updated,
            StorageResponse::Updated,
            StorageResponse::LayerProperties(1, vec![1]),
            StorageResponse::LayerProperties(4, vec![4]),
            StorageResponse::LayerProperties(9, vec![9]),
        ]
    );
}

#[test]
fn layer_properties_write_and_read() {
    let mut core = InMemoryStorageCore::new();
    let rs = run(
        &mut core,
        vec![
            StorageCommand::WriteLayerProperties(3, vec![5]),
            StorageCommand::AddLayer(3, vec![1]),
            StorageCommand::WriteLayerProperties(3, vec![5]),
            StorageCommand::ReadLayerProperties(3),
            StorageCommand::ReadLayerProperties(4),
        ],
    );
    assert_eq!(
        rs,
        vec![
            StorageResponse::NotFound,
            StorageResponse::Updated,
            StorageResponse::Updated,
            StorageResponse::LayerProperties(3, vec![5]),
            StorageResponse::NotFound,
        ]
    );
}

#[test]
fn add_key_frame_twice_refuses_the_second() {
    let mut core = InMemoryStorageCore::new();
    let rs = run(
        &mut core,
        vec![
            StorageCommand::AddLayer(1, vec![]),
            StorageCommand::AddKeyFrame(1, 1000),
            StorageCommand::AddKeyFrame(1, 1000),
        ],
    );
    assert_eq!(
        rs,
        vec![
            StorageResponse::Updated,
            StorageResponse::Updated,
            StorageResponse::NotReplacingExisting,
        ]
    );
}

#[test]
fn add_key_frame_to_missing_layer_is_not_found() {
    let mut core = InMemoryStorageCore::new();
    let rs = run(&mut core, vec![StorageCommand::AddKeyFrame(1, 1000)]);
    assert_eq!(rs, vec![StorageResponse::NotFound]);
}

#[test]
fn delete_key_frame_semantics() {
    let mut core = InMemoryStorageCore::new();
    let rs = run(
        &mut core,
        vec![
            StorageCommand::AddLayer(1, vec![]),
            StorageCommand::DeleteKeyFrame(1, 1000),
            StorageCommand::AddKeyFrame(1, 1000),
            StorageCommand::DeleteKeyFrame(1, 1000),
            StorageCommand::ReadKeyFrames(1, 1000, 1001),
        ],
    );
    assert_eq!(
        rs,
        vec![
            StorageResponse::Updated,
            StorageResponse::NotFound,
            StorageResponse::Updated,
            StorageResponse::Updated,
        ]
    );
}

#[test]
fn read_key_frames_pairs_each_with_its_end() {
    let mut core = InMemoryStorageCore::new();
    let rs = run(
        &mut core,
        vec![
            StorageCommand::AddLayer(1, vec![]),
            StorageCommand::AddKeyFrame(1, 1000),
            StorageCommand::AddKeyFrame(1, 2000),
            StorageCommand::ReadKeyFrames(1, 1000, 3000),
        ],
    );
    assert_eq!(
        rs,
        vec![
            StorageResponse::Updated,
            StorageResponse::Updated,
            StorageResponse::Updated,
            StorageResponse::KeyFrame(1000, 2000),
            StorageResponse::KeyFrame(2000, TIME_UNBOUNDED),
        ]
    );
}

#[test]
fn read_key_frames_starts_at_the_covering_frame() {
    let mut core = InMemoryStorageCore::new();
    let rs = run(
        &mut core,
        vec![
            StorageCommand::AddLayer(1, vec![]),
            StorageCommand::AddKeyFrame(1, 1000),
            StorageCommand::AddKeyFrame(1, 2000),
            StorageCommand::ReadKeyFrames(1, 1500, 1600),
        ],
    );
    assert_eq!(
        rs,
        vec![
            StorageResponse::Updated,
            StorageResponse::Updated,
            StorageResponse::Updated,
            StorageResponse::KeyFrame(1000, 2000),
        ]
    );
}

#[test]
fn attach_reports_element_for_key_frame() {
    let mut core = InMemoryStorageCore::new();
    let rs = run(
        &mut core,
        vec![
            StorageCommand::AddLayer(1, vec![112]),
            StorageCommand::AddKeyFrame(1, 1000),
            StorageCommand::AttachElementToLayer(1, 42, 1500),
            StorageCommand::ReadElementsForKeyFrame(1, 1000),
        ],
    );
    assert_eq!(
        rs,
        vec![
            StorageResponse::Updated,
            StorageResponse::Updated,
            StorageResponse::Updated,
            StorageResponse::ElementsForKeyFrame(vec![42]),
        ]
    );
}

#[test]
fn attach_records_both_sides() {
    let mut core = InMemoryStorageCore::new();
    let rs = run(
        &mut core,
        vec![
            StorageCommand::AddLayer(1, vec![]),
            StorageCommand::AddKeyFrame(1, 1000),
            StorageCommand::AttachElementToLayer(1, 42, 1500),
            StorageCommand::ReadElementAttachments(42),
        ],
    );
    assert_eq!(
        rs,
        vec![
            StorageResponse::Updated,
            StorageResponse::Updated,
            StorageResponse::Updated,
            StorageResponse::ElementAttachments(42, vec![(1, 1000)]),
        ]
    );
}

#[test]
fn attach_before_first_key_frame_is_not_found() {
    let mut core = InMemoryStorageCore::new();
    let rs = run(
        &mut core,
        vec![
            StorageCommand::AddLayer(1, vec![]),
            StorageCommand::AddKeyFrame(1, 1000),
            StorageCommand::AttachElementToLayer(1, 42, 500),
        ],
    );
    assert_eq!(
        rs,
        vec![
            StorageResponse::Updated,
            StorageResponse::Updated,
            StorageResponse::NotFound,
        ]
    );
}

#[test]
fn detach_removes_both_sides() {
    let mut core = InMemoryStorageCore::new();
    let rs = run(
        &mut core,
        vec![
            StorageCommand::AddLayer(1, vec![]),
            StorageCommand::AddKeyFrame(1, 1000),
            StorageCommand::AttachElementToLayer(1, 42, 1500),
            StorageCommand::DetachElementFromLayer(42),
            StorageCommand::ReadElementAttachments(42),
            StorageCommand::ReadElementsForKeyFrame(1, 1000),
        ],
    );
    assert_eq!(
        rs,
        vec![
            StorageResponse::Updated,
            StorageResponse::Updated,
            StorageResponse::Updated,
            StorageResponse::Updated,
            StorageResponse::ElementAttachments(42, vec![]),
            StorageResponse::ElementsForKeyFrame(vec![]),
        ]
    );
}

#[test]
fn delete_layer_drops_its_attachment_records() {
    let mut core = InMemoryStorageCore::new();
    let rs = run(
        &mut core,
        vec![
            StorageCommand::AddLayer(1, vec![]),
            StorageCommand::AddKeyFrame(1, 1000),
            StorageCommand::AttachElementToLayer(1, 42, 1500),
            StorageCommand::DeleteLayer(1),
            StorageCommand::ReadElementAttachments(42),
            StorageCommand::DeleteLayer(1),
        ],
    );
    assert_eq!(
        rs,
        vec![
            StorageResponse::Updated,
            StorageResponse::Updated,
            StorageResponse::Updated,
            StorageResponse::Updated,
            StorageResponse::ElementAttachments(42, vec![]),
            StorageResponse::NotFound,
        ]
    );
}

#[test]
fn delete_key_frame_drops_its_attachment_records() {
    let mut core = InMemoryStorageCore::new();
    let rs = run(
        &mut core,
        vec![
            StorageCommand::AddLayer(1, vec![]),
            StorageCommand::AddKeyFrame(1, 1000),
            StorageCommand::AttachElementToLayer(1, 42, 1500),
            StorageCommand::DeleteKeyFrame(1, 1000),
            StorageCommand::ReadElementAttachments(42),
        ],
    );
    assert_eq!(
        rs,
        vec![
            StorageResponse::Updated,
            StorageResponse::Updated,
            StorageResponse::Updated,
            StorageResponse::Updated,
            StorageResponse::ElementAttachments(42, vec![]),
        ]
    );
}

#[test]
fn layer_cache_write_read_delete() {
    let mut core = InMemoryStorageCore::new();
    let rs = run(
        &mut core,
        vec![
            StorageCommand::AddLayer(1, vec![]),
            StorageCommand::ReadLayerCache(1, 500, vec![79]),
            StorageCommand::WriteLayerCache(1, 500, vec![79], vec![1, 2]),
            StorageCommand::ReadLayerCache(1, 500, vec![79]),
            StorageCommand::DeleteLayerCache(1, 500, vec![79]),
            StorageCommand::ReadLayerCache(1, 500, vec![79]),
            StorageCommand::ReadLayerCache(2, 500, vec![79]),
        ],
    );
    assert_eq!(
        rs,
        vec![
            StorageResponse::Updated,
            StorageResponse::NotFound,
            StorageResponse::Updated,
            StorageResponse::LayerCache(vec![1, 2]),
            StorageResponse::Updated,
            StorageResponse::NotFound,
            StorageResponse::NotFound,
        ]
    );
}

#[test]
fn mixed_batch_yields_one_response_per_command() {
    let mut core = InMemoryStorageCore::new();
    let commands = vec![
        StorageCommand::AddLayer(1, vec![]),
        StorageCommand::AddKeyFrame(2, 100),
        StorageCommand::AddKeyFrame(1, 100),
        StorageCommand::DeleteKeyFrame(1, 200),
        StorageCommand::WriteElement(0, vec![1]),
        StorageCommand::ReadElement(3),
        StorageCommand::ReadHighestUnusedElementId,
    ];
    let count = commands.len();
    let rs = run(&mut core, commands);
    assert_eq!(rs.len(), count);
    assert_eq!(
        rs,
        vec![
            StorageResponse::Updated,
            StorageResponse::NotFound,
            StorageResponse::Updated,
            StorageResponse::NotFound,
            StorageResponse::Updated,
            StorageResponse::NotFound,
            StorageResponse::HighestUnusedElementId(1),
        ]
    );
}

#[test]
fn failing_commands_do_not_corrupt_later_state() {
    let mut core = InMemoryStorageCore::new();
    let rs = run(
        &mut core,
        vec![
            StorageCommand::DeleteLayer(9),
            StorageCommand::AddLayer(1, vec![8]),
            StorageCommand::AddKeyFrame(7, 100),
            StorageCommand::AddKeyFrame(1, 100),
            StorageCommand::ReadKeyFrames(1, 0, 200),
        ],
    );
    assert_eq!(
        rs,
        vec![
            StorageResponse::NotFound,
            StorageResponse::Updated,
            StorageResponse::NotFound,
            StorageResponse::Updated,
            StorageResponse::KeyFrame(100, TIME_UNBOUNDED),
        ]
    );
}

#[test]
fn add_layer_overwrites_an_existing_layer() {
    let mut core = InMemoryStorageCore::new();
    let rs = run(
        &mut core,
        vec![
            StorageCommand::AddLayer(1, vec![1]),
            StorageCommand::AddKeyFrame(1, 100),
            StorageCommand::AddLayer(1, vec![2]),
            StorageCommand::ReadLayerProperties(1),
            StorageCommand::ReadKeyFrames(1, 0, 200),
        ],
    );
    assert_eq!(
        rs,
        vec![
            StorageResponse::Updated,
            StorageResponse::Updated,
            StorageResponse::Updated,
            StorageResponse::LayerProperties(1, vec![2]),
        ]
    );
}
