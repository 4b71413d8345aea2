//! Tests of the vector layer, the edit log, the control attributes and the
//! action renderer.

use flo_core::cocoa_actions::{AppAction, AppEvent, ViewAction, ViewType, WindowAction};
use flo_core::control_attributes::{
    ActionTrigger, Bounds, ControlAttribute, Position, Property, ToControlAttributes,
};
use flo_core::edit_log::{EditLog, InMemoryEditLog};
use flo_core::renderer::{GfxAction, GlRenderer, Rgba8, TextureId, VertexBufferId, Vertex2D};
use flo_core::vector_layer::{Frame, InMemoryVectorLayer, Layer, LayerEditType};

#[test]
fn new_layer_has_its_id_and_no_keyframes() {
    let layer = InMemoryVectorLayer::new(3);
    assert_eq!(layer.id(), 3);
    assert_eq!(layer.get_key_frames_during_time(0, u64::MAX), Vec::<u64>::new());
}

#[test]
fn keyframes_are_kept_sorted_and_unique() {
    let mut layer = InMemoryVectorLayer::new(1);
    layer.add_key_frame(2000);
    layer.add_key_frame(1000);
    layer.add_key_frame(3000);
    layer.add_key_frame(2000);
    assert_eq!(layer.get_key_frames_during_time(0, u64::MAX), vec![1000, 2000, 3000]);
    layer.remove_key_frame(2000);
    layer.remove_key_frame(500);
    assert_eq!(layer.get_key_frames_during_time(0, u64::MAX), vec![1000, 3000]);
}

#[test]
fn frame_lookup_finds_the_covering_keyframe() {
    let mut layer = InMemoryVectorLayer::new(1);
    layer.add_key_frame(1000);
    layer.add_key_frame(3000);
    assert_eq!(
        layer.get_frame_at_time(1500),
        Frame::Vector { keyframe_time: 1000, offset: 500 }
    );
    assert_eq!(
        layer.get_frame_at_time(3000),
        Frame::Vector { keyframe_time: 3000, offset: 0 }
    );
    assert_eq!(layer.get_frame_at_time(500), Frame::Empty { when: 500 });
}

#[test]
fn key_frame_range_lookup_is_half_open() {
    let mut layer = InMemoryVectorLayer::new(1);
    layer.add_key_frame(1000);
    layer.add_key_frame(2000);
    layer.add_key_frame(3000);
    assert_eq!(layer.get_key_frames_during_time(1000, 3000), vec![1000, 2000]);
    assert_eq!(layer.get_key_frames_during_time(1500, 1600), Vec::<u64>::new());
}

#[test]
fn vector_layers_support_vector_edits() {
    let layer = InMemoryVectorLayer::new(1);
    assert_eq!(layer.supported_edit_types(), vec![LayerEditType::Vector]);
}

#[test]
fn edit_log_commit_appends_the_pending_batch() {
    let mut log = InMemoryEditLog::new();
    assert_eq!(log.length(), 0);
    log.set_pending(&[vec![1], vec![2]]);
    assert_eq!(log.length(), 0);
    log.commit_pending();
    assert_eq!(log.length(), 2);
    assert_eq!(log.read(0, 2), vec![vec![1], vec![2]]);
}

#[test]
fn edit_log_cancel_drops_the_pending_batch() {
    let mut log = InMemoryEditLog::new();
    log.set_pending(&[vec![1]]);
    log.cancel_panding();
    log.commit_pending();
    assert_eq!(log.length(), 0);
}

#[test]
fn edit_log_set_pending_replaces_the_previous_batch() {
    let mut log = InMemoryEditLog::new();
    log.set_pending(&[vec![1]]);
    log.set_pending(&[vec![2], vec![3]]);
    log.commit_pending();
    assert_eq!(log.read(0, 2), vec![vec![2], vec![3]]);
}

fn sample_bounds() -> Bounds {
    Bounds {
        x1: Position::Start,
        y1: Position::At(4),
        x2: Position::Stretch(1),
        y2: Position::End,
    }
}

#[test]
fn accessors_pick_out_the_matching_attribute() {
    let bounds = sample_bounds();
    let attr = ControlAttribute::BoundingBox(bounds);
    assert_eq!(attr.bounding_box(), Some(&bounds));
    assert!(attr.text().is_none());
    assert!(attr.id().is_none());
    let id = ControlAttribute::Id(String::from("tool-1"));
    assert_eq!(id.id().map(|s| s.as_str()), Some("tool-1"));
    assert!(id.bounding_box().is_none());
    let action = ControlAttribute::Action(ActionTrigger::Click, String::from("paint"));
    let (trigger, name) = action.action().unwrap();
    assert_eq!(*trigger, ActionTrigger::Click);
    assert_eq!(name.as_str(), "paint");
    let selected = ControlAttribute::Selected(Property::Bool(true));
    assert_eq!(selected.selected(), Some(&Property::Bool(true)));
    let controller = ControlAttribute::Controller(String::from("canvas"));
    assert_eq!(controller.controller().map(|s| s.as_str()), Some("canvas"));
}

#[test]
fn is_different_flat_reports_matching_attributes() {
    let a = ControlAttribute::Id(String::from("x"));
    let b = ControlAttribute::Id(String::from("x"));
    let c = ControlAttribute::Id(String::from("y"));
    assert!(a.is_different_flat(&b));
    assert!(!a.is_different_flat(&c));
    let bounds = ControlAttribute::BoundingBox(sample_bounds());
    assert!(!a.is_different_flat(&bounds));
    assert!(bounds.is_different_flat(&ControlAttribute::BoundingBox(sample_bounds())));
    let subs_a = ControlAttribute::SubComponents(Vec::new());
    let subs_b = ControlAttribute::SubComponents(Vec::new());
    assert!(subs_a.is_different_flat(&subs_b));
}

#[test]
fn values_convert_to_their_attributes() {
    let attrs = String::from("label").attributes();
    assert_eq!(attrs.len(), 1);
    match &attrs[0] {
        ControlAttribute::Text(Property::String(s)) => assert_eq!(s.as_str(), "label"),
        _ => panic!("expected a text attribute"),
    }
    let attrs = sample_bounds().attributes();
    assert_eq!(attrs.len(), 1);
    match &attrs[0] {
        ControlAttribute::BoundingBox(b) => assert_eq!(*b, sample_bounds()),
        _ => panic!("expected a bounding box attribute"),
    }
    let attrs = (ActionTrigger::Click, String::from("go")).attributes();
    match &attrs[0] {
        ControlAttribute::Action(t, s) => {
            assert_eq!(*t, ActionTrigger::Click);
            assert_eq!(s.as_str(), "go");
        },
        _ => panic!("expected an action attribute"),
    }
    let list = vec![
        ControlAttribute::Id(String::from("a")),
        ControlAttribute::Controller(String::from("b")),
    ];
    let attrs = list.attributes();
    assert_eq!(attrs.len(), 2);
}

#[test]
fn renderer_accepts_a_batch_of_actions() {
    let mut renderer = GlRenderer::new();
    renderer.render(vec![
        GfxAction::CreateVertex2DBuffer(
            VertexBufferId(1),
            vec![Vertex2D { x: 0, y: 0 }, Vertex2D { x: 10, y: 10 }],
        ),
        GfxAction::CreateTextureBgra(TextureId(2), 64, 64),
        GfxAction::Clear(Rgba8 { r: 0, g: 0, b: 0, a: 255 }),
        GfxAction::RenderToFrameBuffer,
        GfxAction::ShowFrameBuffer,
        GfxAction::FreeTexture(TextureId(2)),
        GfxAction::FreeVertexBuffer(VertexBufferId(1)),
    ]);
    renderer.flush();
}

#[test]
fn app_actions_carry_their_targets() {
    let actions = vec![
        AppAction::CreateWindow(1),
        AppAction::Window(1, WindowAction::Open),
        AppAction::CreateView(2, ViewType::Button),
        AppAction::View(2, ViewAction::AddSubView(3)),
        AppAction::Window(1, WindowAction::SetRootView(2)),
        AppAction::View(2, ViewAction::RemoveFromSuperview),
    ];
    assert_eq!(actions.len(), 6);
    assert_eq!(actions[0], AppAction::CreateWindow(1));
    let event = AppEvent::Click(2, String::from("pressed"));
    match event {
        AppEvent::Click(view, name) => {
            assert_eq!(view, 2);
            assert_eq!(name.as_str(), "pressed");
        },
    }
}
