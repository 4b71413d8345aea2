//! Tests of the edit, time-curve and drawing serializers: round trips and
//! rejection of malformed streams.

use flo_core::data_codec::DataSource;
use flo_core::drawing_codec::{decode_drawing, encode_drawing, DrawingCommand};
use flo_core::edit_codec::{ElementAlign, ElementTransform};
use flo_core::time_curve::{TimeCurve, TimePoint};

fn transform_round_trip(t: ElementTransform) {
    let mut bytes: Vec<u8> = Vec::new();
    t.serialize(&mut bytes);
    let mut source = DataSource::new(bytes);
    assert_eq!(ElementTransform::deserialize(&mut source), Some(t));
}

#[test]
fn set_anchor_round_trips() {
    transform_round_trip(ElementTransform::SetAnchor(12, -7));
}

#[test]
fn move_to_round_trips() {
    transform_round_trip(ElementTransform::MoveTo(-1000000, 2000000));
}

#[test]
fn every_alignment_round_trips() {
    let alignments = vec![
        ElementAlign::Left,
        ElementAlign::Center,
        ElementAlign::Right,
        ElementAlign::Top,
        ElementAlign::Middle,
        ElementAlign::Bottom,
    ];
    for align in alignments {
        transform_round_trip(ElementTransform::Align(align));
    }
}

#[test]
fn transform_set_anchor_bytes_are_tagged() {
    let mut bytes: Vec<u8> = Vec::new();
    ElementTransform::SetAnchor(1, 2).serialize(&mut bytes);
    assert_eq!(bytes.len(), 17);
    assert_eq!(bytes[0], b'A');
    assert_eq!(bytes[1], 1);
    assert_eq!(bytes[9], 2);
}

#[test]
fn unknown_transform_tag_is_rejected() {
    let mut source = DataSource::new(vec![b'z', 0, 0, 0, 0, 0, 0, 0, 0]);
    assert_eq!(ElementTransform::deserialize(&mut source), None);
}

#[test]
fn truncated_transform_is_rejected() {
    let mut source = DataSource::new(vec![b'A', 1, 2, 3]);
    assert_eq!(ElementTransform::deserialize(&mut source), None);
}

#[test]
fn empty_transform_stream_is_rejected() {
    let mut source = DataSource::new(Vec::new());
    assert_eq!(ElementTransform::deserialize(&mut source), None);
}

fn curve_round_trip(points: Vec<TimePoint>) {
    let curve = TimeCurve { points };
    let mut bytes: Vec<u8> = Vec::new();
    curve.serialize(&mut bytes);
    let mut source = DataSource::new(bytes);
    assert_eq!(TimeCurve::deserialize(&mut source), Some(curve));
}

#[test]
fn empty_curve_round_trips() {
    curve_round_trip(Vec::new());
}

#[test]
fn ascending_curve_round_trips() {
    curve_round_trip(vec![
        TimePoint::new(0, 0, 0),
        TimePoint::new(10, 20, 100),
        TimePoint::new(15, 5, 450),
    ]);
}

#[test]
fn negative_deltas_round_trip() {
    curve_round_trip(vec![
        TimePoint::new(100, 100, 50),
        TimePoint::new(-40, -200, 25),
    ]);
}

#[test]
fn extreme_coordinates_round_trip() {
    curve_round_trip(vec![
        TimePoint::new(i64::MAX, i64::MIN, 0),
        TimePoint::new(i64::MIN, i64::MAX, i64::MAX),
    ]);
}

#[test]
fn truncated_curve_is_rejected() {
    let curve = TimeCurve {
        points: vec![TimePoint::new(1, 2, 3), TimePoint::new(4, 5, 6)],
    };
    let mut bytes: Vec<u8> = Vec::new();
    curve.serialize(&mut bytes);
    bytes.pop();
    let mut source = DataSource::new(bytes);
    assert_eq!(TimeCurve::deserialize(&mut source), None);
}

fn drawing_round_trip(cmds: Vec<DrawingCommand>) {
    let bytes = encode_drawing(&cmds);
    assert_eq!(decode_drawing(bytes), Some(cmds));
}

#[test]
fn empty_drawing_round_trips() {
    drawing_round_trip(Vec::new());
}

#[test]
fn drawing_with_every_instruction_round_trips() {
    drawing_round_trip(vec![
        DrawingCommand::NewPath,
        DrawingCommand::Move(10, -20),
        DrawingCommand::Line(30, 40),
        DrawingCommand::Line(-1, -2),
        DrawingCommand::ClosePath,
        DrawingCommand::Fill,
        DrawingCommand::Stroke,
    ]);
}

#[test]
fn malformed_drawing_is_rejected() {
    let cmds = vec![DrawingCommand::NewPath];
    let mut bytes = encode_drawing(&cmds);
    bytes[8] = 255;
    assert_eq!(decode_drawing(bytes), None);
}

#[test]
fn truncated_drawing_is_rejected() {
    let cmds = vec![DrawingCommand::Move(1, 2)];
    let mut bytes = encode_drawing(&cmds);
    bytes.truncate(12);
    assert_eq!(decode_drawing(bytes), None);
}
