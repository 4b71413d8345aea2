//! Tests of the layer rendering cache as a client of the storage core:
//! each operation is a command submitted to the core, whose responses the
//! cache decodes.

use flo_core::drawing_codec::DrawingCommand;
use flo_core::layer_cache::{CacheKind, CachePlan, StreamLayerCache};
use flo_core::protocol::StorageCommand;
use flo_core::store::InMemoryStorageCore;

fn sample_drawing() -> Vec<DrawingCommand> {
    vec![
        DrawingCommand::NewPath,
        DrawingCommand::Move(0, 0),
        DrawingCommand::Line(100, 50),
        DrawingCommand::Stroke,
    ]
}

#[test]
fn store_then_retrieve_returns_the_drawing() {
    let mut core = InMemoryStorageCore::new();
    core.run_commands(vec![StorageCommand::AddLayer(1, Vec::new())]);
    let cache = StreamLayerCache::new(1, 2000);
    let drawing = sample_drawing();
    core.run_commands(vec![cache.store_command(CacheKind::OnionSkinLayer, &drawing)]);
    let responses = core.run_commands(vec![cache.retrieve_command(CacheKind::OnionSkinLayer)]);
    assert_eq!(StreamLayerCache::decode_retrieved(responses), Some(drawing));
}

#[test]
fn retrieve_before_store_is_a_miss() {
    let mut core = InMemoryStorageCore::new();
    core.run_commands(vec![StorageCommand::AddLayer(1, Vec::new())]);
    let cache = StreamLayerCache::new(1, 2000);
    let responses = core.run_commands(vec![cache.retrieve_command(CacheKind::OnionSkinLayer)]);
    assert_eq!(StreamLayerCache::decode_retrieved(responses), None);
}

#[test]
fn invalidate_drops_the_stored_drawing() {
    let mut core = InMemoryStorageCore::new();
    core.run_commands(vec![StorageCommand::AddLayer(1, Vec::new())]);
    let cache = StreamLayerCache::new(1, 2000);
    let drawing = sample_drawing();
    core.run_commands(vec![cache.store_command(CacheKind::OnionSkinLayer, &drawing)]);
    core.run_commands(vec![cache.invalidate_command(CacheKind::OnionSkinLayer)]);
    let responses = core.run_commands(vec![cache.retrieve_command(CacheKind::OnionSkinLayer)]);
    assert_eq!(StreamLayerCache::decode_retrieved(responses), None);
}

#[test]
fn retrieve_or_generate_uses_a_cached_value() {
    let mut core = InMemoryStorageCore::new();
    core.run_commands(vec![StorageCommand::AddLayer(1, Vec::new())]);
    let cache = StreamLayerCache::new(1, 2000);
    let drawing = sample_drawing();
    core.run_commands(vec![cache.store_command(CacheKind::OnionSkinLayer, &drawing)]);
    let responses = core.run_commands(vec![cache.retrieve_command(CacheKind::OnionSkinLayer)]);
    match StreamLayerCache::retrieve_or_generate_plan(responses) {
        CachePlan::UseCached(cached) => assert_eq!(cached, drawing),
        CachePlan::Generate => panic!("expected the cached drawing"),
    }
}

#[test]
fn retrieve_or_generate_generates_on_a_miss() {
    let mut core = InMemoryStorageCore::new();
    core.run_commands(vec![StorageCommand::AddLayer(1, Vec::new())]);
    let cache = StreamLayerCache::new(1, 2000);
    let responses = core.run_commands(vec![cache.retrieve_command(CacheKind::OnionSkinLayer)]);
    match StreamLayerCache::retrieve_or_generate_plan(responses) {
        CachePlan::UseCached(_) => panic!("expected a miss"),
        CachePlan::Generate => {},
    }
}

#[test]
fn a_malformed_cached_payload_is_a_miss() {
    let mut core = InMemoryStorageCore::new();
    let cache = StreamLayerCache::new(1, 2000);
    core.run_commands(vec![StorageCommand::AddLayer(1, Vec::new())]);
    core.run_commands(vec![StorageCommand::WriteLayerCache(
        1,
        2000,
        CacheKind::OnionSkinLayer.serialize(),
        vec![255, 255, 255],
    )]);
    let responses = core.run_commands(vec![cache.retrieve_command(CacheKind::OnionSkinLayer)]);
    assert_eq!(StreamLayerCache::decode_retrieved(responses), None);
}
