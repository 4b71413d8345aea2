//! The storage command protocol: a closed set of request messages and the
//! responses a backend must produce for them.
//!
//! Every command is answered as part of an ordered batch: a vector of
//! commands yields a vector of responses, in order.  Most commands produce
//! exactly one response; the bulk reads (`ReadEdits`, `ReadLayers`,
//! `ReadKeyFrames`) produce one response per item read.
//!
//! Times are in milliseconds; the value `u64::MAX` stands for "unbounded"
//! (the open end of the last keyframe of a layer).  Properties, edits,
//! element definitions and cache payloads are opaque serialized blobs,
//! carried as byte vectors.

use vstd::prelude::*;

verus! {

/// A request to a storage backend.
#[derive(Clone, PartialEq, Debug)]
pub enum StorageCommand {
    /// Overwrite the animation-wide properties blob.
    WriteAnimationProperties(Vec<u8>),
    /// Read the animation-wide properties blob.
    ReadAnimationProperties,
    /// Append one serialized edit to the edit log.
    WriteEdit(Vec<u8>),
    /// Read `max(element ids) + 1`, or 0 when no element exists.
    ReadHighestUnusedElementId,
    /// Read the number of entries in the edit log.
    ReadEditLogLength,
    /// Read the edit log entries with indexes in `start..end`.
    ReadEdits(usize, usize),
    /// Create or overwrite the definition of an element.
    WriteElement(i64, Vec<u8>),
    /// Read the definition of an element.
    ReadElement(i64),
    /// Remove an element definition, if present.
    DeleteElement(i64),
    /// Create or overwrite a layer with the given properties and no keyframes.
    AddLayer(u64, Vec<u8>),
    /// Remove a layer and the attachment records of its keyframes.
    DeleteLayer(u64),
    /// Read the id and properties of every layer, in ascending id order.
    ReadLayers,
    /// Overwrite the properties of an existing layer.
    WriteLayerProperties(u64, Vec<u8>),
    /// Read the properties of a layer.
    ReadLayerProperties(u64),
    /// Insert a keyframe at the given time in a layer.
    AddKeyFrame(u64, u64),
    /// Remove the keyframe at exactly the given time in a layer.
    DeleteKeyFrame(u64, u64),
    /// Read the keyframes of a layer spanning the time range `start..end`.
    ReadKeyFrames(u64, u64, u64),
    /// Attach an element to the keyframe of a layer covering the given time.
    AttachElementToLayer(u64, i64, u64),
    /// Detach an element from every keyframe of every layer.
    DetachElementFromLayer(i64),
    /// Read every (layer, keyframe time) pair recorded for an element.
    ReadElementAttachments(i64),
    /// Read the elements attached at an exact keyframe time of a layer.
    ReadElementsForKeyFrame(u64, u64),
    /// Store a cached rendering for (layer, time, cache key).
    WriteLayerCache(u64, u64, Vec<u8>, Vec<u8>),
    /// Read the cached rendering for (layer, time, cache key).
    ReadLayerCache(u64, u64, Vec<u8>),
    /// Drop the cached rendering for (layer, time, cache key).
    DeleteLayerCache(u64, u64, Vec<u8>),
}

/// A storage backend's answer to one command (or to one item of a bulk read).
#[derive(Clone, PartialEq, Debug)]
pub enum StorageResponse {
    /// The write took effect.
    Updated,
    /// The referenced layer, element, keyframe or cache entry does not exist.
    NotFound,
    /// An insert was refused because it would overwrite a unique key.
    NotReplacingExisting,
    /// The animation-wide properties blob.
    AnimationProperties(Vec<u8>),
    /// The lowest element id that is higher than every stored one.
    HighestUnusedElementId(i64),
    /// The number of entries in the edit log.
    NumberOfEdits(usize),
    /// One edit log entry, with its index.
    Edit(usize, Vec<u8>),
    /// One element definition, with its id.
    Element(i64, Vec<u8>),
    /// The id and properties of one layer.
    LayerProperties(u64, Vec<u8>),
    /// One keyframe, as its start time and end time.
    KeyFrame(u64, u64),
    /// Every (layer, keyframe time) pair recorded for an element.
    ElementAttachments(i64, Vec<(u64, u64)>),
    /// The ids of the elements attached at one keyframe.
    ElementsForKeyFrame(Vec<i64>),
    /// One cached rendering payload.
    LayerCache(Vec<u8>),
}

/// The mathematical value of a [`StorageCommand`]: blobs become byte
/// sequences, everything else is carried as is.
pub enum CommandModel {
    WriteAnimationProperties(Seq<u8>),
    ReadAnimationProperties,
    WriteEdit(Seq<u8>),
    ReadHighestUnusedElementId,
    ReadEditLogLength,
    ReadEdits(usize, usize),
    WriteElement(i64, Seq<u8>),
    ReadElement(i64),
    DeleteElement(i64),
    AddLayer(u64, Seq<u8>),
    DeleteLayer(u64),
    ReadLayers,
    WriteLayerProperties(u64, Seq<u8>),
    ReadLayerProperties(u64),
    AddKeyFrame(u64, u64),
    DeleteKeyFrame(u64, u64),
    ReadKeyFrames(u64, u64, u64),
    AttachElementToLayer(u64, i64, u64),
    DetachElementFromLayer(i64),
    ReadElementAttachments(i64),
    ReadElementsForKeyFrame(u64, u64),
    WriteLayerCache(u64, u64, Seq<u8>, Seq<u8>),
    ReadLayerCache(u64, u64, Seq<u8>),
    DeleteLayerCache(u64, u64, Seq<u8>),
}

/// The mathematical value of a [`StorageResponse`].
pub enum ResponseModel {
    Updated,
    NotFound,
    NotReplacingExisting,
    AnimationProperties(Seq<u8>),
    HighestUnusedElementId(i64),
    NumberOfEdits(usize),
    Edit(usize, Seq<u8>),
    Element(i64, Seq<u8>),
    LayerProperties(u64, Seq<u8>),
    KeyFrame(u64, u64),
    ElementAttachments(i64, Seq<(u64, u64)>),
    ElementsForKeyFrame(Seq<i64>),
    LayerCache(Seq<u8>),
}

impl DeepView for StorageCommand {
    type V = CommandModel;

    open spec fn deep_view(&self) -> CommandModel {
        match self {
            StorageCommand::WriteAnimationProperties(props) => CommandModel::WriteAnimationProperties(props.deep_view()),
            StorageCommand::ReadAnimationProperties => CommandModel::ReadAnimationProperties,
            StorageCommand::WriteEdit(edit) => CommandModel::WriteEdit(edit.deep_view()),
            StorageCommand::ReadHighestUnusedElementId => CommandModel::ReadHighestUnusedElementId,
            StorageCommand::ReadEditLogLength => CommandModel::ReadEditLogLength,
            StorageCommand::ReadEdits(start, end) => CommandModel::ReadEdits(*start, *end),
            StorageCommand::WriteElement(id, value) => CommandModel::WriteElement(*id, value.deep_view()),
            StorageCommand::ReadElement(id) => CommandModel::ReadElement(*id),
            StorageCommand::DeleteElement(id) => CommandModel::DeleteElement(*id),
            StorageCommand::AddLayer(id, props) => CommandModel::AddLayer(*id, props.deep_view()),
            StorageCommand::DeleteLayer(id) => CommandModel::DeleteLayer(*id),
            StorageCommand::ReadLayers => CommandModel::ReadLayers,
            StorageCommand::WriteLayerProperties(id, props) => CommandModel::WriteLayerProperties(*id, props.deep_view()),
            StorageCommand::ReadLayerProperties(id) => CommandModel::ReadLayerProperties(*id),
            StorageCommand::AddKeyFrame(layer_id, when) => CommandModel::AddKeyFrame(*layer_id, *when),
            StorageCommand::DeleteKeyFrame(layer_id, when) => CommandModel::DeleteKeyFrame(*layer_id, *when),
            StorageCommand::ReadKeyFrames(layer_id, start, end) => CommandModel::ReadKeyFrames(*layer_id, *start, *end),
            StorageCommand::AttachElementToLayer(layer_id, element_id, when) => CommandModel::AttachElementToLayer(*layer_id, *element_id, *when),
            StorageCommand::DetachElementFromLayer(element_id) => CommandModel::DetachElementFromLayer(*element_id),
            StorageCommand::ReadElementAttachments(element_id) => CommandModel::ReadElementAttachments(*element_id),
            StorageCommand::ReadElementsForKeyFrame(layer_id, when) => CommandModel::ReadElementsForKeyFrame(*layer_id, *when),
            StorageCommand::WriteLayerCache(layer_id, when, key, value) => CommandModel::WriteLayerCache(*layer_id, *when, key.deep_view(), value.deep_view()),
            StorageCommand::ReadLayerCache(layer_id, when, key) => CommandModel::ReadLayerCache(*layer_id, *when, key.deep_view()),
            StorageCommand::DeleteLayerCache(layer_id, when, key) => CommandModel::DeleteLayerCache(*layer_id, *when, key.deep_view()),
        }
    }
}

impl DeepView for StorageResponse {
    type V = ResponseModel;

    open spec fn deep_view(&self) -> ResponseModel {
        match self {
            StorageResponse::Updated => ResponseModel::Updated,
            StorageResponse::NotFound => ResponseModel::NotFound,
            StorageResponse::NotReplacingExisting => ResponseModel::NotReplacingExisting,
            StorageResponse::AnimationProperties(props) => ResponseModel::AnimationProperties(props.deep_view()),
            StorageResponse::HighestUnusedElementId(id) => ResponseModel::HighestUnusedElementId(*id),
            StorageResponse::NumberOfEdits(count) => ResponseModel::NumberOfEdits(*count),
            StorageResponse::Edit(index, edit) => ResponseModel::Edit(*index, edit.deep_view()),
            StorageResponse::Element(id, value) => ResponseModel::Element(*id, value.deep_view()),
            StorageResponse::LayerProperties(id, props) => ResponseModel::LayerProperties(*id, props.deep_view()),
            StorageResponse::KeyFrame(start, end) => ResponseModel::KeyFrame(*start, *end),
            StorageResponse::ElementAttachments(id, pairs) => ResponseModel::ElementAttachments(*id, pairs.deep_view()),
            StorageResponse::ElementsForKeyFrame(ids) => ResponseModel::ElementsForKeyFrame(ids.deep_view()),
            StorageResponse::LayerCache(value) => ResponseModel::LayerCache(value.deep_view()),
        }
    }
}

/// The time value that stands for "unbounded": the end of the last keyframe
/// of a layer.
pub const TIME_UNBOUNDED: u64 = 0xffff_ffff_ffff_ffff;

} // verus!
