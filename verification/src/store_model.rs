//! The mathematical model of the in-memory store, and the meaning of every
//! storage command as a function from model and command to next model and
//! responses.
//!
//! The model keeps each collection as a sequence: layers and elements are
//! sorted strictly ascending by id, the keyframes of a layer strictly
//! ascending by time, and the attachment table and cache keep insertion
//! order with unique keys.  [`StoreModel::wf`] states these invariants and
//! [`lemma_apply_command_wf`] shows every command preserves them.

use vstd::prelude::*;
use crate::protocol::{CommandModel, ResponseModel, TIME_UNBOUNDED};

verus! {

/// One keyframe: its start time, and the elements attached to it, each with
/// the time at which it appears.
#[verifier::ext_equal]
pub struct KeyFrameModel {
    pub when: u64,
    pub attached: Seq<(i64, u64)>,
}

/// One cached rendering, keyed by time and cache key.
#[verifier::ext_equal]
pub struct CacheEntryModel {
    pub when: u64,
    pub key: Seq<u8>,
    pub value: Seq<u8>,
}

/// One layer: its properties and its time-ordered keyframes, plus the cached
/// renderings stored against it.
#[verifier::ext_equal]
pub struct LayerModel {
    pub id: u64,
    pub properties: Seq<u8>,
    pub keyframes: Seq<KeyFrameModel>,
    pub cache: Seq<CacheEntryModel>,
}

/// One place an element is attached: a layer and the start time of one of
/// its keyframes.
#[verifier::ext_equal]
pub struct AttachmentModel {
    pub layer_id: u64,
    pub keyframe_time: u64,
}

/// The whole store: animation properties, edit log, element definitions,
/// layers, and the per-element attachment table.
#[verifier::ext_equal]
pub struct StoreModel {
    pub animation_properties: Option<Seq<u8>>,
    pub edit_log: Seq<Seq<u8>>,
    pub elements: Seq<(i64, Seq<u8>)>,
    pub layers: Seq<LayerModel>,
    pub attachments: Seq<(i64, Seq<AttachmentModel>)>,
}

impl KeyFrameModel {
    /// Attached element ids are unique within one keyframe.
    pub open spec fn wf(self) -> bool {
        forall|i: int, j: int|
            0 <= i < j < self.attached.len() ==> self.attached[i].0 != self.attached[j].0
    }
}

impl LayerModel {
    /// Keyframe times are strictly ascending, each keyframe is well formed,
    /// and cache keys are unique.
    pub open spec fn wf(self) -> bool {
        &&& forall|i: int, j: int|
            0 <= i < j < self.keyframes.len() ==> self.keyframes[i].when < self.keyframes[j].when
        &&& forall|i: int| 0 <= i < self.keyframes.len() ==> (#[trigger] self.keyframes[i]).wf()
        &&& forall|i: int, j: int|
            0 <= i < j < self.cache.len()
                ==> !(self.cache[i].when == self.cache[j].when && self.cache[i].key
                == self.cache[j].key)
    }
}

impl StoreModel {
    /// The store before any command has run.
    pub open spec fn empty() -> StoreModel {
        StoreModel {
            animation_properties: None,
            edit_log: Seq::empty(),
            elements: Seq::empty(),
            layers: Seq::empty(),
            attachments: Seq::empty(),
        }
    }

    /// The structural invariants of the store: layers and elements sorted
    /// strictly ascending by id, every layer well formed, and attachment
    /// table keys unique.
    pub open spec fn wf(self) -> bool {
        &&& forall|i: int, j: int|
            0 <= i < j < self.layers.len() ==> self.layers[i].id < self.layers[j].id
        &&& forall|i: int| 0 <= i < self.layers.len() ==> (#[trigger] self.layers[i]).wf()
        &&& forall|i: int, j: int|
            0 <= i < j < self.elements.len() ==> self.elements[i].0 < self.elements[j].0
        &&& forall|i: int, j: int|
            0 <= i < j < self.attachments.len() ==> self.attachments[i].0 != self.attachments[j].0
    }
}

// ---------------------------------------------------------------------------
// Lookup positions
// ---------------------------------------------------------------------------

/// Whether some layer has the given id.
pub open spec fn has_layer(layers: Seq<LayerModel>, id: u64) -> bool {
    exists|i: int| 0 <= i < layers.len() && layers[i].id == id
}

/// The index of the layer with the given id.
pub open spec fn layer_pos(layers: Seq<LayerModel>, id: u64) -> int
    recommends
        has_layer(layers, id),
{
    choose|i: int| 0 <= i < layers.len() && layers[i].id == id
}

/// The position at which a layer with the given fresh id belongs.
pub open spec fn layer_ins(layers: Seq<LayerModel>, id: u64) -> int
    decreases layers.len(),
{
    if layers.len() == 0 {
        0
    } else if id <= layers[0].id {
        0
    } else {
        1 + layer_ins(layers.drop_first(), id)
    }
}

/// Whether a layer has a keyframe at exactly the given time.
pub open spec fn has_kf(kfs: Seq<KeyFrameModel>, when: u64) -> bool {
    exists|i: int| 0 <= i < kfs.len() && kfs[i].when == when
}

/// The index of the keyframe at exactly the given time.
pub open spec fn kf_pos(kfs: Seq<KeyFrameModel>, when: u64) -> int
    recommends
        has_kf(kfs, when),
{
    choose|i: int| 0 <= i < kfs.len() && kfs[i].when == when
}

/// The position at which a keyframe at the given time belongs.
pub open spec fn kf_ins(kfs: Seq<KeyFrameModel>, when: u64) -> int
    decreases kfs.len(),
{
    if kfs.len() == 0 {
        0
    } else if when <= kfs[0].when {
        0
    } else {
        1 + kf_ins(kfs.drop_first(), when)
    }
}

/// Whether some element has the given id.
pub open spec fn has_elem(elems: Seq<(i64, Seq<u8>)>, id: i64) -> bool {
    exists|i: int| 0 <= i < elems.len() && elems[i].0 == id
}

/// The index of the element with the given id.
pub open spec fn elem_pos(elems: Seq<(i64, Seq<u8>)>, id: i64) -> int
    recommends
        has_elem(elems, id),
{
    choose|i: int| 0 <= i < elems.len() && elems[i].0 == id
}

/// The position at which an element with the given fresh id belongs.
pub open spec fn elem_ins(elems: Seq<(i64, Seq<u8>)>, id: i64) -> int
    decreases elems.len(),
{
    if elems.len() == 0 {
        0
    } else if id <= elems[0].0 {
        0
    } else {
        1 + elem_ins(elems.drop_first(), id)
    }
}

/// Whether the attachment table has an entry for the given element.
pub open spec fn has_att(atts: Seq<(i64, Seq<AttachmentModel>)>, id: i64) -> bool {
    exists|i: int| 0 <= i < atts.len() && atts[i].0 == id
}

/// The index of the attachment table entry for the given element.
pub open spec fn att_pos(atts: Seq<(i64, Seq<AttachmentModel>)>, id: i64) -> int
    recommends
        has_att(atts, id),
{
    choose|i: int| 0 <= i < atts.len() && atts[i].0 == id
}

/// Whether an element id occurs in a keyframe's attached list.
pub open spec fn has_attached(attached: Seq<(i64, u64)>, id: i64) -> bool {
    exists|i: int| 0 <= i < attached.len() && attached[i].0 == id
}

/// The index of an element id in a keyframe's attached list.
pub open spec fn attached_pos(attached: Seq<(i64, u64)>, id: i64) -> int
    recommends
        has_attached(attached, id),
{
    choose|i: int| 0 <= i < attached.len() && attached[i].0 == id
}

/// Whether a layer's cache holds an entry for the given time and key.
pub open spec fn has_cache(cache: Seq<CacheEntryModel>, when: u64, key: Seq<u8>) -> bool {
    exists|i: int| 0 <= i < cache.len() && cache[i].when == when && cache[i].key == key
}

/// The index of the cache entry for the given time and key.
pub open spec fn cache_pos(cache: Seq<CacheEntryModel>, when: u64, key: Seq<u8>) -> int
    recommends
        has_cache(cache, when, key),
{
    choose|i: int| 0 <= i < cache.len() && cache[i].when == when && cache[i].key == key
}

// ---------------------------------------------------------------------------
// Derived reads
// ---------------------------------------------------------------------------

/// `max(element ids) + 1`, or 0 with no elements; saturating at the top of
/// the id range.
pub open spec fn highest_unused_element_id(elems: Seq<(i64, Seq<u8>)>) -> i64 {
    if elems.len() == 0 {
        0
    } else if elems.last().0 == i64::MAX {
        i64::MAX
    } else {
        (elems.last().0 + 1) as i64
    }
}

/// The end time of the keyframe at index `i`: the start of the next
/// keyframe, or unbounded for the last one.
pub open spec fn kf_end(kfs: Seq<KeyFrameModel>, i: int) -> u64 {
    if i + 1 < kfs.len() {
        kfs[i + 1].when
    } else {
        TIME_UNBOUNDED
    }
}

/// The index of the keyframe from which a range read starting at `start`
/// begins: the exact match, or the keyframe before the insertion point.
pub open spec fn kf_range_start(kfs: Seq<KeyFrameModel>, start: u64) -> int {
    if has_kf(kfs, start) {
        kf_pos(kfs, start)
    } else {
        let p = kf_ins(kfs, start);
        if p > 0 {
            p - 1
        } else {
            0
        }
    }
}

/// The keyframe covering the given time, if any: the exact match, or the
/// nearest keyframe before it.
pub open spec fn kf_covering(kfs: Seq<KeyFrameModel>, when: u64) -> Option<int> {
    if has_kf(kfs, when) {
        Some(kf_pos(kfs, when))
    } else {
        let p = kf_ins(kfs, when);
        if p > 0 {
            Some(p - 1)
        } else {
            None
        }
    }
}

// ---------------------------------------------------------------------------
// Attachment bookkeeping
// ---------------------------------------------------------------------------

/// A keyframe's attached list with one element attached at the given
/// appearance time: updated in place if present, appended otherwise.
pub open spec fn attach_to_list(attached: Seq<(i64, u64)>, id: i64, when: u64) -> Seq<(i64, u64)> {
    if has_attached(attached, id) {
        attached.update(attached_pos(attached, id), (id, when))
    } else {
        attached.push((id, when))
    }
}

/// An attachment list without the records that point at the given layer.
pub open spec fn strip_layer_atts(list: Seq<AttachmentModel>, layer_id: u64) -> Seq<
    AttachmentModel,
>
    decreases list.len(),
{
    if list.len() == 0 {
        Seq::empty()
    } else {
        let rest = strip_layer_atts(list.drop_last(), layer_id);
        if list.last().layer_id == layer_id {
            rest
        } else {
            rest.push(list.last())
        }
    }
}

/// An attachment list without the records that point at the given keyframe.
pub open spec fn strip_kf_atts(list: Seq<AttachmentModel>, layer_id: u64, when: u64) -> Seq<
    AttachmentModel,
>
    decreases list.len(),
{
    if list.len() == 0 {
        Seq::empty()
    } else {
        let rest = strip_kf_atts(list.drop_last(), layer_id, when);
        if list.last().layer_id == layer_id && list.last().keyframe_time == when {
            rest
        } else {
            rest.push(list.last())
        }
    }
}

/// The attachment table with every record pointing at the given layer
/// removed from every entry.
pub open spec fn strip_layer_table(atts: Seq<(i64, Seq<AttachmentModel>)>, layer_id: u64) -> Seq<
    (i64, Seq<AttachmentModel>),
>
    decreases atts.len(),
{
    if atts.len() == 0 {
        Seq::empty()
    } else {
        strip_layer_table(atts.drop_last(), layer_id).push(
            (atts.last().0, strip_layer_atts(atts.last().1, layer_id)),
        )
    }
}

/// The attachment table with every record pointing at the given keyframe
/// removed from every entry.
pub open spec fn strip_kf_table(
    atts: Seq<(i64, Seq<AttachmentModel>)>,
    layer_id: u64,
    when: u64,
) -> Seq<(i64, Seq<AttachmentModel>)>
    decreases atts.len(),
{
    if atts.len() == 0 {
        Seq::empty()
    } else {
        strip_kf_table(atts.drop_last(), layer_id, when).push(
            (atts.last().0, strip_kf_atts(atts.last().1, layer_id, when)),
        )
    }
}

/// A keyframe's attached list without the given element.
pub open spec fn detach_from_list(attached: Seq<(i64, u64)>, id: i64) -> Seq<(i64, u64)>
    decreases attached.len(),
{
    if attached.len() == 0 {
        Seq::empty()
    } else {
        let rest = detach_from_list(attached.drop_last(), id);
        if attached.last().0 == id {
            rest
        } else {
            rest.push(attached.last())
        }
    }
}

/// A layer's keyframes with the given element detached from each.
pub open spec fn detach_from_kfs(kfs: Seq<KeyFrameModel>, id: i64) -> Seq<KeyFrameModel>
    decreases kfs.len(),
{
    if kfs.len() == 0 {
        Seq::empty()
    } else {
        detach_from_kfs(kfs.drop_last(), id).push(
            KeyFrameModel { when: kfs.last().when, attached: detach_from_list(kfs.last().attached, id) },
        )
    }
}

/// All layers with the given element detached from every keyframe.
pub open spec fn detach_from_layers(layers: Seq<LayerModel>, id: i64) -> Seq<LayerModel>
    decreases layers.len(),
{
    if layers.len() == 0 {
        Seq::empty()
    } else {
        detach_from_layers(layers.drop_last(), id).push(
            LayerModel {
                id: layers.last().id,
                properties: layers.last().properties,
                keyframes: detach_from_kfs(layers.last().keyframes, id),
                cache: layers.last().cache,
            },
        )
    }
}

/// An attachment list as response pairs of (layer id, keyframe time).
pub open spec fn att_pairs(list: Seq<AttachmentModel>) -> Seq<(u64, u64)>
    decreases list.len(),
{
    if list.len() == 0 {
        Seq::empty()
    } else {
        att_pairs(list.drop_last()).push((list.last().layer_id, list.last().keyframe_time))
    }
}

/// The element ids of a keyframe's attached list, in stored order.
pub open spec fn attached_ids(attached: Seq<(i64, u64)>) -> Seq<i64>
    decreases attached.len(),
{
    if attached.len() == 0 {
        Seq::empty()
    } else {
        attached_ids(attached.drop_last()).push(attached.last().0)
    }
}

// ---------------------------------------------------------------------------
// ---------------------------------------------------------------------------
// Command application
// ---------------------------------------------------------------------------

/// Overwrite the animation-wide properties.
pub open spec fn step_write_animation_properties(m: StoreModel, props: Seq<u8>) -> (
    StoreModel,
    Seq<ResponseModel>,
) {
    (StoreModel { animation_properties: Some(props), ..m }, seq![ResponseModel::Updated])
}

/// Read the animation-wide properties, or `NotFound` before the first write.
pub open spec fn step_read_animation_properties(m: StoreModel) -> (StoreModel, Seq<ResponseModel>) {
    (
        m,
        match m.animation_properties {
            Some(props) => seq![ResponseModel::AnimationProperties(props)],
            None => seq![ResponseModel::NotFound],
        },
    )
}

/// Append one edit to the edit log.
pub open spec fn step_write_edit(m: StoreModel, edit: Seq<u8>) -> (StoreModel, Seq<ResponseModel>) {
    (StoreModel { edit_log: m.edit_log.push(edit), ..m }, seq![ResponseModel::Updated])
}

/// Read the highest unused element id.
pub open spec fn step_read_highest_unused(m: StoreModel) -> (StoreModel, Seq<ResponseModel>) {
    (m, seq![ResponseModel::HighestUnusedElementId(highest_unused_element_id(m.elements))])
}

/// Read the number of edit log entries.
pub open spec fn step_read_edit_log_length(m: StoreModel) -> (StoreModel, Seq<ResponseModel>) {
    (m, seq![ResponseModel::NumberOfEdits(m.edit_log.len() as usize)])
}

/// Read one edit per index in `start..end`.
pub open spec fn step_read_edits(m: StoreModel, start: usize, end: usize) -> (
    StoreModel,
    Seq<ResponseModel>,
) {
    (
        m,
        Seq::new(
            if start <= end {
                (end - start) as nat
            } else {
                0
            },
            |j: int| ResponseModel::Edit((start + j) as usize, m.edit_log[start + j]),
        ),
    )
}

/// Create or overwrite an element definition.
pub open spec fn step_write_element(m: StoreModel, id: i64, value: Seq<u8>) -> (
    StoreModel,
    Seq<ResponseModel>,
) {
    (
        StoreModel {
            elements: if has_elem(m.elements, id) {
                m.elements.update(elem_pos(m.elements, id), (id, value))
            } else {
                m.elements.insert(elem_ins(m.elements, id), (id, value))
            },
            ..m
        },
        seq![ResponseModel::Updated],
    )
}

/// Read an element definition, or `NotFound`.
pub open spec fn step_read_element(m: StoreModel, id: i64) -> (StoreModel, Seq<ResponseModel>) {
    (
        m,
        if has_elem(m.elements, id) {
            seq![ResponseModel::Element(id, m.elements[elem_pos(m.elements, id)].1)]
        } else {
            seq![ResponseModel::NotFound]
        },
    )
}

/// Remove an element definition; always acknowledged.
pub open spec fn step_delete_element(m: StoreModel, id: i64) -> (StoreModel, Seq<ResponseModel>) {
    (
        StoreModel {
            elements: if has_elem(m.elements, id) {
                m.elements.remove(elem_pos(m.elements, id))
            } else {
                m.elements
            },
            ..m
        },
        seq![ResponseModel::Updated],
    )
}

/// Create or overwrite a layer, with no keyframes and an empty cache.
pub open spec fn step_add_layer(m: StoreModel, id: u64, props: Seq<u8>) -> (
    StoreModel,
    Seq<ResponseModel>,
) {
    let fresh = LayerModel { id, properties: props, keyframes: Seq::empty(), cache: Seq::empty() };
    (
        StoreModel {
            layers: if has_layer(m.layers, id) {
                m.layers.update(layer_pos(m.layers, id), fresh)
            } else {
                m.layers.insert(layer_ins(m.layers, id), fresh)
            },
            ..m
        },
        seq![ResponseModel::Updated],
    )
}

/// Remove a layer, and the attachment records of its keyframes.
pub open spec fn step_delete_layer(m: StoreModel, id: u64) -> (StoreModel, Seq<ResponseModel>) {
    if has_layer(m.layers, id) {
        (
            StoreModel {
                layers: m.layers.remove(layer_pos(m.layers, id)),
                attachments: strip_layer_table(m.attachments, id),
                ..m
            },
            seq![ResponseModel::Updated],
        )
    } else {
        (m, seq![ResponseModel::NotFound])
    }
}

/// Read the id and properties of every layer, ascending by id.
pub open spec fn step_read_layers(m: StoreModel) -> (StoreModel, Seq<ResponseModel>) {
    (
        m,
        Seq::new(
            m.layers.len(),
            |i: int| ResponseModel::LayerProperties(m.layers[i].id, m.layers[i].properties),
        ),
    )
}

/// Overwrite the properties of an existing layer.
pub open spec fn step_write_layer_properties(m: StoreModel, id: u64, props: Seq<u8>) -> (
    StoreModel,
    Seq<ResponseModel>,
) {
    if has_layer(m.layers, id) {
        let p = layer_pos(m.layers, id);
        (
            StoreModel {
                layers: m.layers.update(p, LayerModel { properties: props, ..m.layers[p] }),
                ..m
            },
            seq![ResponseModel::Updated],
        )
    } else {
        (m, seq![ResponseModel::NotFound])
    }
}

/// Read the properties of a layer, or `NotFound`.
pub open spec fn step_read_layer_properties(m: StoreModel, id: u64) -> (
    StoreModel,
    Seq<ResponseModel>,
) {
    (
        m,
        if has_layer(m.layers, id) {
            seq![ResponseModel::LayerProperties(id, m.layers[layer_pos(m.layers, id)].properties)]
        } else {
            seq![ResponseModel::NotFound]
        },
    )
}

/// Insert a keyframe at the given time: refused when one is already there,
/// `NotFound` when the layer is missing.
pub open spec fn step_add_key_frame(m: StoreModel, layer_id: u64, when: u64) -> (
    StoreModel,
    Seq<ResponseModel>,
) {
    if has_layer(m.layers, layer_id) {
        let p = layer_pos(m.layers, layer_id);
        let kfs = m.layers[p].keyframes;
        if has_kf(kfs, when) {
            (m, seq![ResponseModel::NotReplacingExisting])
        } else {
            let fresh = KeyFrameModel { when, attached: Seq::empty() };
            (
                StoreModel {
                    layers: m.layers.update(
                        p,
                        LayerModel { keyframes: kfs.insert(kf_ins(kfs, when), fresh), ..m.layers[p] },
                    ),
                    ..m
                },
                seq![ResponseModel::Updated],
            )
        }
    } else {
        (m, seq![ResponseModel::NotFound])
    }
}

/// Remove the keyframe at exactly the given time, with its attachment
/// records; `NotFound` when the layer or the keyframe is missing.
pub open spec fn step_delete_key_frame(m: StoreModel, layer_id: u64, when: u64) -> (
    StoreModel,
    Seq<ResponseModel>,
) {
    if has_layer(m.layers, layer_id) {
        let p = layer_pos(m.layers, layer_id);
        let kfs = m.layers[p].keyframes;
        if has_kf(kfs, when) {
            (
                StoreModel {
                    layers: m.layers.update(
                        p,
                        LayerModel { keyframes: kfs.remove(kf_pos(kfs, when)), ..m.layers[p] },
                    ),
                    attachments: strip_kf_table(m.attachments, layer_id, when),
                    ..m
                },
                seq![ResponseModel::Updated],
            )
        } else {
            (m, seq![ResponseModel::NotFound])
        }
    } else {
        (m, seq![ResponseModel::NotFound])
    }
}

/// Read the keyframes spanning `start..end`: from the keyframe covering
/// `start` up to the last one starting before `end`, each paired with its
/// end time.
pub open spec fn step_read_key_frames(m: StoreModel, layer_id: u64, start: u64, end: u64) -> (
    StoreModel,
    Seq<ResponseModel>,
) {
    if has_layer(m.layers, layer_id) {
        let kfs = m.layers[layer_pos(m.layers, layer_id)].keyframes;
        let lo = kf_range_start(kfs, start);
        let hi = kf_ins(kfs, end);
        (
            m,
            Seq::new(
                if kfs.len() > 0 && lo < hi {
                    (hi - lo) as nat
                } else {
                    0
                },
                |j: int| ResponseModel::KeyFrame(kfs[lo + j].when, kf_end(kfs, lo + j)),
            ),
        )
    } else {
        (m, seq![ResponseModel::NotFound])
    }
}

/// Attach an element to the keyframe covering the given time, recording the
/// attachment on both sides; `NotFound` when the layer is missing or no
/// keyframe covers the time.
pub open spec fn step_attach_element(m: StoreModel, layer_id: u64, element_id: i64, when: u64) -> (
    StoreModel,
    Seq<ResponseModel>,
) {
    if has_layer(m.layers, layer_id) {
        let p = layer_pos(m.layers, layer_id);
        let kfs = m.layers[p].keyframes;
        match kf_covering(kfs, when) {
            Some(k) => {
                let kf = kfs[k];
                let record = AttachmentModel { layer_id, keyframe_time: kf.when };
                (
                    StoreModel {
                        layers: m.layers.update(
                            p,
                            LayerModel {
                                keyframes: kfs.update(
                                    k,
                                    KeyFrameModel {
                                        when: kf.when,
                                        attached: attach_to_list(kf.attached, element_id, when),
                                    },
                                ),
                                ..m.layers[p]
                            },
                        ),
                        attachments: if has_att(m.attachments, element_id) {
                            let a = att_pos(m.attachments, element_id);
                            m.attachments.update(a, (element_id, m.attachments[a].1.push(record)))
                        } else {
                            m.attachments.push((element_id, seq![record]))
                        },
                        ..m
                    },
                    seq![ResponseModel::Updated],
                )
            },
            None => (m, seq![ResponseModel::NotFound]),
        }
    } else {
        (m, seq![ResponseModel::NotFound])
    }
}

/// Detach an element from every keyframe of every layer, and drop its
/// attachment table entry.
pub open spec fn step_detach_element(m: StoreModel, element_id: i64) -> (
    StoreModel,
    Seq<ResponseModel>,
) {
    (
        StoreModel {
            layers: detach_from_layers(m.layers, element_id),
            attachments: if has_att(m.attachments, element_id) {
                m.attachments.remove(att_pos(m.attachments, element_id))
            } else {
                m.attachments
            },
            ..m
        },
        seq![ResponseModel::Updated],
    )
}

/// Read every (layer, keyframe time) pair recorded for an element.
pub open spec fn step_read_element_attachments(m: StoreModel, element_id: i64) -> (
    StoreModel,
    Seq<ResponseModel>,
) {
    (
        m,
        seq![
            ResponseModel::ElementAttachments(
                element_id,
                if has_att(m.attachments, element_id) {
                    att_pairs(m.attachments[att_pos(m.attachments, element_id)].1)
                } else {
                    Seq::empty()
                },
            ),
        ],
    )
}

/// Read the ids of the elements attached at an exact keyframe time.
pub open spec fn step_read_elements_for_key_frame(m: StoreModel, layer_id: u64, when: u64) -> (
    StoreModel,
    Seq<ResponseModel>,
) {
    if has_layer(m.layers, layer_id) {
        let kfs = m.layers[layer_pos(m.layers, layer_id)].keyframes;
        if has_kf(kfs, when) {
            (
                m,
                seq![
                    ResponseModel::ElementsForKeyFrame(attached_ids(kfs[kf_pos(kfs, when)].attached)),
                ],
            )
        } else {
            (m, seq![ResponseModel::NotFound])
        }
    } else {
        (m, seq![ResponseModel::NotFound])
    }
}

/// Store a cached rendering against a layer; `NotFound` when the layer is
/// missing.
pub open spec fn step_write_layer_cache(
    m: StoreModel,
    layer_id: u64,
    when: u64,
    key: Seq<u8>,
    value: Seq<u8>,
) -> (StoreModel, Seq<ResponseModel>) {
    if has_layer(m.layers, layer_id) {
        let p = layer_pos(m.layers, layer_id);
        let cache = m.layers[p].cache;
        let entry = CacheEntryModel { when, key, value };
        (
            StoreModel {
                layers: m.layers.update(
                    p,
                    LayerModel {
                        cache: if has_cache(cache, when, key) {
                            cache.update(cache_pos(cache, when, key), entry)
                        } else {
                            cache.push(entry)
                        },
                        ..m.layers[p]
                    },
                ),
                ..m
            },
            seq![ResponseModel::Updated],
        )
    } else {
        (m, seq![ResponseModel::NotFound])
    }
}

/// Read a cached rendering, or `NotFound` for a missing layer or entry.
pub open spec fn step_read_layer_cache(m: StoreModel, layer_id: u64, when: u64, key: Seq<u8>) -> (
    StoreModel,
    Seq<ResponseModel>,
) {
    (
        m,
        if has_layer(m.layers, layer_id) {
            let cache = m.layers[layer_pos(m.layers, layer_id)].cache;
            if has_cache(cache, when, key) {
                seq![ResponseModel::LayerCache(cache[cache_pos(cache, when, key)].value)]
            } else {
                seq![ResponseModel::NotFound]
            }
        } else {
            seq![ResponseModel::NotFound]
        },
    )
}

/// Drop a cached rendering; acknowledged whenever the layer exists.
pub open spec fn step_delete_layer_cache(m: StoreModel, layer_id: u64, when: u64, key: Seq<u8>) -> (
    StoreModel,
    Seq<ResponseModel>,
) {
    if has_layer(m.layers, layer_id) {
        let p = layer_pos(m.layers, layer_id);
        let cache = m.layers[p].cache;
        (
            StoreModel {
                layers: m.layers.update(
                    p,
                    LayerModel {
                        cache: if has_cache(cache, when, key) {
                            cache.remove(cache_pos(cache, when, key))
                        } else {
                            cache
                        },
                        ..m.layers[p]
                    },
                ),
                ..m
            },
            seq![ResponseModel::Updated],
        )
    } else {
        (m, seq![ResponseModel::NotFound])
    }
}

/// The meaning of one command: the store after it, and the responses it
/// produces.
pub open spec fn apply_command(m: StoreModel, c: CommandModel) -> (StoreModel, Seq<ResponseModel>) {
    match c {
        CommandModel::WriteAnimationProperties(props) => step_write_animation_properties(m, props),
        CommandModel::ReadAnimationProperties => step_read_animation_properties(m),
        CommandModel::WriteEdit(edit) => step_write_edit(m, edit),
        CommandModel::ReadHighestUnusedElementId => step_read_highest_unused(m),
        CommandModel::ReadEditLogLength => step_read_edit_log_length(m),
        CommandModel::ReadEdits(start, end) => step_read_edits(m, start, end),
        CommandModel::WriteElement(id, value) => step_write_element(m, id, value),
        CommandModel::ReadElement(id) => step_read_element(m, id),
        CommandModel::DeleteElement(id) => step_delete_element(m, id),
        CommandModel::AddLayer(id, props) => step_add_layer(m, id, props),
        CommandModel::DeleteLayer(id) => step_delete_layer(m, id),
        CommandModel::ReadLayers => step_read_layers(m),
        CommandModel::WriteLayerProperties(id, props) => step_write_layer_properties(m, id, props),
        CommandModel::ReadLayerProperties(id) => step_read_layer_properties(m, id),
        CommandModel::AddKeyFrame(layer_id, when) => step_add_key_frame(m, layer_id, when),
        CommandModel::DeleteKeyFrame(layer_id, when) => step_delete_key_frame(m, layer_id, when),
        CommandModel::ReadKeyFrames(layer_id, start, end) => step_read_key_frames(
            m,
            layer_id,
            start,
            end,
        ),
        CommandModel::AttachElementToLayer(layer_id, element_id, when) => step_attach_element(
            m,
            layer_id,
            element_id,
            when,
        ),
        CommandModel::DetachElementFromLayer(element_id) => step_detach_element(m, element_id),
        CommandModel::ReadElementAttachments(element_id) => step_read_element_attachments(
            m,
            element_id,
        ),
        CommandModel::ReadElementsForKeyFrame(layer_id, when) => step_read_elements_for_key_frame(
            m,
            layer_id,
            when,
        ),
        CommandModel::WriteLayerCache(layer_id, when, key, value) => step_write_layer_cache(
            m,
            layer_id,
            when,
            key,
            value,
        ),
        CommandModel::ReadLayerCache(layer_id, when, key) => step_read_layer_cache(
            m,
            layer_id,
            when,
            key,
        ),
        CommandModel::DeleteLayerCache(layer_id, when, key) => step_delete_layer_cache(
            m,
            layer_id,
            when,
            key,
        ),
    }
}

/// Whether one command can run without reading outside the store: only
/// `ReadEdits` constrains its input, to indexes inside the edit log.
pub open spec fn command_valid(m: StoreModel, c: CommandModel) -> bool {
    match c {
        CommandModel::ReadEdits(start, end) => start >= end || end <= m.edit_log.len(),
        _ => true,
    }
}

/// Whether every command of a batch is valid in the state it will run in.
pub open spec fn commands_valid(m: StoreModel, cs: Seq<CommandModel>) -> bool
    decreases cs.len(),
{
    cs.len() == 0 || {
        &&& command_valid(m, cs[0])
        &&& commands_valid(apply_command(m, cs[0]).0, cs.drop_first())
    }
}

/// The meaning of a batch: the store after every command, and all responses
/// in command order.
pub open spec fn apply_commands(m: StoreModel, cs: Seq<CommandModel>) -> (
    StoreModel,
    Seq<ResponseModel>,
)
    decreases cs.len(),
{
    if cs.len() == 0 {
        (m, Seq::empty())
    } else {
        let (m1, rs1) = apply_command(m, cs[0]);
        let (m2, rs2) = apply_commands(m1, cs.drop_first());
        (m2, rs1 + rs2)
    }
}


// ---------------------------------------------------------------------------
// Properties of the lookup positions
// ---------------------------------------------------------------------------

/// On a sorted layer sequence, `layer_ins` splits the ids below the given
/// one from those at or above it.
pub proof fn lemma_layer_ins_props(layers: Seq<LayerModel>, id: u64)
    requires
        forall|i: int, j: int| 0 <= i < j < layers.len() ==> layers[i].id < layers[j].id,
    ensures
        0 <= layer_ins(layers, id) <= layers.len(),
        forall|i: int| 0 <= i < layer_ins(layers, id) ==> (#[trigger] layers[i]).id < id,
        forall|i: int|
            layer_ins(layers, id) <= i < layers.len() ==> id <= (#[trigger] layers[i]).id,
    decreases layers.len(),
{
    if layers.len() == 0 {
    } else if id <= layers[0].id {
    } else {
        let rest = layers.drop_first();
        assert forall|i: int, j: int| 0 <= i < j < rest.len() implies rest[i].id < rest[j].id by {
            assert(rest[i] == layers[i + 1]);
            assert(rest[j] == layers[j + 1]);
        }
        lemma_layer_ins_props(rest, id);
        let p = layer_ins(layers, id);
        assert forall|i: int| 0 <= i < p implies (#[trigger] layers[i]).id < id by {
            if i >= 1 {
                assert(rest[i - 1] == layers[i]);
                assert(rest[i - 1].id < id);
            }
        }
        assert forall|i: int| p <= i < layers.len() implies id <= (#[trigger] layers[i]).id by {
            assert(rest[i - 1] == layers[i]);
            assert(id <= rest[i - 1].id);
        }
    }
}

/// On a sorted keyframe sequence, `kf_ins` splits the times below the given
/// one from those at or above it.
pub proof fn lemma_kf_ins_props(kfs: Seq<KeyFrameModel>, when: u64)
    requires
        forall|i: int, j: int| 0 <= i < j < kfs.len() ==> kfs[i].when < kfs[j].when,
    ensures
        0 <= kf_ins(kfs, when) <= kfs.len(),
        forall|i: int| 0 <= i < kf_ins(kfs, when) ==> (#[trigger] kfs[i]).when < when,
        forall|i: int| kf_ins(kfs, when) <= i < kfs.len() ==> when <= (#[trigger] kfs[i]).when,
    decreases kfs.len(),
{
    if kfs.len() == 0 {
    } else if when <= kfs[0].when {
    } else {
        let rest = kfs.drop_first();
        assert forall|i: int, j: int| 0 <= i < j < rest.len() implies rest[i].when < rest[j].when by {
            assert(rest[i] == kfs[i + 1]);
            assert(rest[j] == kfs[j + 1]);
        }
        lemma_kf_ins_props(rest, when);
        let p = kf_ins(kfs, when);
        assert forall|i: int| 0 <= i < p implies (#[trigger] kfs[i]).when < when by {
            if i >= 1 {
                assert(rest[i - 1] == kfs[i]);
                assert(rest[i - 1].when < when);
            }
        }
        assert forall|i: int| p <= i < kfs.len() implies when <= (#[trigger] kfs[i]).when by {
            assert(rest[i - 1] == kfs[i]);
            assert(when <= rest[i - 1].when);
        }
    }
}

/// On a sorted element sequence, `elem_ins` splits the ids below the given
/// one from those at or above it.
pub proof fn lemma_elem_ins_props(elems: Seq<(i64, Seq<u8>)>, id: i64)
    requires
        forall|i: int, j: int| 0 <= i < j < elems.len() ==> elems[i].0 < elems[j].0,
    ensures
        0 <= elem_ins(elems, id) <= elems.len(),
        forall|i: int| 0 <= i < elem_ins(elems, id) ==> (#[trigger] elems[i]).0 < id,
        forall|i: int| elem_ins(elems, id) <= i < elems.len() ==> id <= (#[trigger] elems[i]).0,
    decreases elems.len(),
{
    if elems.len() == 0 {
    } else if id <= elems[0].0 {
    } else {
        let rest = elems.drop_first();
        assert forall|i: int, j: int| 0 <= i < j < rest.len() implies rest[i].0 < rest[j].0 by {
            assert(rest[i] == elems[i + 1]);
            assert(rest[j] == elems[j + 1]);
        }
        lemma_elem_ins_props(rest, id);
        let p = elem_ins(elems, id);
        assert forall|i: int| 0 <= i < p implies (#[trigger] elems[i]).0 < id by {
            if i >= 1 {
                assert(rest[i - 1] == elems[i]);
                assert(rest[i - 1].0 < id);
            }
        }
        assert forall|i: int| p <= i < elems.len() implies id <= (#[trigger] elems[i]).0 by {
            assert(rest[i - 1] == elems[i]);
            assert(id <= rest[i - 1].0);
        }
    }
}

// ---------------------------------------------------------------------------
// Properties of the attachment bookkeeping
// ---------------------------------------------------------------------------

/// Detaching an element keeps only records of the original list, none of
/// them for the detached id, and preserves the uniqueness of attached ids.
pub proof fn lemma_detach_list_props(attached: Seq<(i64, u64)>, id: i64)
    ensures
        forall|k: int|
            0 <= k < detach_from_list(attached, id).len() ==> attached.contains(
                #[trigger] detach_from_list(attached, id)[k],
            ),
        forall|k: int|
            0 <= k < detach_from_list(attached, id).len() ==> (#[trigger] detach_from_list(
                attached,
                id,
            )[k]).0 != id,
        (forall|i: int, j: int|
            0 <= i < j < attached.len() ==> attached[i].0 != attached[j].0) ==> (forall|
            i: int,
            j: int,
        |
            0 <= i < j < detach_from_list(attached, id).len() ==> detach_from_list(attached, id)[i].0
                != detach_from_list(attached, id)[j].0),
    decreases attached.len(),
{
    if attached.len() == 0 {
    } else {
        let prefix = attached.drop_last();
        lemma_detach_list_props(prefix, id);
        let res = detach_from_list(attached, id);
        let resp = detach_from_list(prefix, id);
        assert forall|k: int| 0 <= k < res.len() implies attached.contains(#[trigger] res[k])
            && res[k].0 != id by {
            if k < resp.len() {
                assert(res[k] == resp[k]);
                assert(prefix.contains(resp[k]));
                let j = choose|j: int| 0 <= j < prefix.len() && prefix[j] == resp[k];
                assert(prefix[j] == attached[j]);
                assert(attached[j] == res[k]);
            } else {
                assert(res[k] == attached[attached.len() - 1]);
            }
        }
        if forall|i: int, j: int| 0 <= i < j < attached.len() ==> attached[i].0 != attached[j].0 {
            assert forall|i: int, j: int|
                0 <= i < j < prefix.len() implies prefix[i].0 != prefix[j].0 by {
                assert(prefix[i] == attached[i]);
                assert(prefix[j] == attached[j]);
            }
            assert forall|i: int, j: int| 0 <= i < j < res.len() implies res[i].0 != res[j].0 by {
                if j < resp.len() {
                    assert(res[i] == resp[i]);
                    assert(res[j] == resp[j]);
                } else {
                    // res[j] is the last record of the original list; res[i]
                    // comes from the prefix, whose ids all differ from it.
                    assert(res[i] == resp[i]);
                    assert(prefix.contains(resp[i]));
                    let w = choose|w: int| 0 <= w < prefix.len() && prefix[w] == resp[i];
                    assert(prefix[w] == attached[w]);
                    assert(attached[w].0 != attached[attached.len() - 1].0);
                }
            }
        }
    }
}

/// Detaching an element from every keyframe of a layer keeps the keyframe
/// times, and rewrites each attached list by `detach_from_list`.
pub proof fn lemma_detach_kfs_props(kfs: Seq<KeyFrameModel>, id: i64)
    ensures
        detach_from_kfs(kfs, id).len() == kfs.len(),
        forall|i: int|
            0 <= i < kfs.len() ==> (#[trigger] detach_from_kfs(kfs, id)[i]).when == kfs[i].when
                && detach_from_kfs(kfs, id)[i].attached == detach_from_list(kfs[i].attached, id),
    decreases kfs.len(),
{
    if kfs.len() == 0 {
    } else {
        let prefix = kfs.drop_last();
        lemma_detach_kfs_props(prefix, id);
        let res = detach_from_kfs(kfs, id);
        let resp = detach_from_kfs(prefix, id);
        assert forall|i: int|
            0 <= i < kfs.len() implies (#[trigger] res[i]).when == kfs[i].when && res[i].attached
            == detach_from_list(kfs[i].attached, id) by {
            if i < prefix.len() {
                assert(res[i] == resp[i]);
                assert(prefix[i] == kfs[i]);
            }
        }
    }
}

/// Detaching an element keeps every layer's id, properties and cache, and
/// rewrites its keyframes by `detach_from_kfs`.
pub proof fn lemma_detach_layers_props(layers: Seq<LayerModel>, id: i64)
    ensures
        detach_from_layers(layers, id).len() == layers.len(),
        forall|i: int|
            0 <= i < layers.len() ==> (#[trigger] detach_from_layers(layers, id)[i]).id
                == layers[i].id && detach_from_layers(layers, id)[i].properties
                == layers[i].properties && detach_from_layers(layers, id)[i].cache
                == layers[i].cache && detach_from_layers(layers, id)[i].keyframes
                == detach_from_kfs(layers[i].keyframes, id),
    decreases layers.len(),
{
    if layers.len() == 0 {
    } else {
        let prefix = layers.drop_last();
        lemma_detach_layers_props(prefix, id);
        let res = detach_from_layers(layers, id);
        let resp = detach_from_layers(prefix, id);
        assert forall|i: int|
            0 <= i < layers.len() implies (#[trigger] res[i]).id == layers[i].id && res[i].properties
            == layers[i].properties && res[i].cache == layers[i].cache && res[i].keyframes
            == detach_from_kfs(layers[i].keyframes, id) by {
            if i < prefix.len() {
                assert(res[i] == resp[i]);
                assert(prefix[i] == layers[i]);
            }
        }
    }
}

/// Stripping a layer's records keeps the attachment table's keys and order.
pub proof fn lemma_strip_layer_table_props(atts: Seq<(i64, Seq<AttachmentModel>)>, layer_id: u64)
    ensures
        strip_layer_table(atts, layer_id).len() == atts.len(),
        forall|i: int|
            0 <= i < atts.len() ==> (#[trigger] strip_layer_table(atts, layer_id)[i]).0
                == atts[i].0 && strip_layer_table(atts, layer_id)[i].1 == strip_layer_atts(
                atts[i].1,
                layer_id,
            ),
    decreases atts.len(),
{
    if atts.len() == 0 {
    } else {
        let prefix = atts.drop_last();
        lemma_strip_layer_table_props(prefix, layer_id);
        let res = strip_layer_table(atts, layer_id);
        let resp = strip_layer_table(prefix, layer_id);
        assert forall|i: int|
            0 <= i < atts.len() implies (#[trigger] res[i]).0 == atts[i].0 && res[i].1
            == strip_layer_atts(atts[i].1, layer_id) by {
            if i < prefix.len() {
                assert(res[i] == resp[i]);
                assert(prefix[i] == atts[i]);
            }
        }
    }
}

/// Stripping a keyframe's records keeps the attachment table's keys and
/// order.
pub proof fn lemma_strip_kf_table_props(
    atts: Seq<(i64, Seq<AttachmentModel>)>,
    layer_id: u64,
    when: u64,
)
    ensures
        strip_kf_table(atts, layer_id, when).len() == atts.len(),
        forall|i: int|
            0 <= i < atts.len() ==> (#[trigger] strip_kf_table(atts, layer_id, when)[i]).0
                == atts[i].0 && strip_kf_table(atts, layer_id, when)[i].1 == strip_kf_atts(
                atts[i].1,
                layer_id,
                when,
            ),
    decreases atts.len(),
{
    if atts.len() == 0 {
    } else {
        let prefix = atts.drop_last();
        lemma_strip_kf_table_props(prefix, layer_id, when);
        let res = strip_kf_table(atts, layer_id, when);
        let resp = strip_kf_table(prefix, layer_id, when);
        assert forall|i: int|
            0 <= i < atts.len() implies (#[trigger] res[i]).0 == atts[i].0 && res[i].1
            == strip_kf_atts(atts[i].1, layer_id, when) by {
            if i < prefix.len() {
                assert(res[i] == resp[i]);
                assert(prefix[i] == atts[i]);
            }
        }
    }
}

// ---------------------------------------------------------------------------
// Invariant preservation
// ---------------------------------------------------------------------------

/// Writing an element keeps the element table sorted.
pub proof fn lemma_step_write_element_wf(m: StoreModel, id: i64, value: Seq<u8>)
    requires
        m.wf(),
    ensures
        step_write_element(m, id, value).0.wf(),
{
    let m2 = step_write_element(m, id, value).0;
    if has_elem(m.elements, id) {
        let p = elem_pos(m.elements, id);
        assert(m.elements[p].0 == id);
        assert forall|i: int, j: int|
            0 <= i < j < m2.elements.len() implies m2.elements[i].0 < m2.elements[j].0 by {}
    } else {
        lemma_elem_ins_props(m.elements, id);
        let p = elem_ins(m.elements, id);
        m.elements.insert_ensures(p, (id, value));
        assert forall|i: int, j: int|
            0 <= i < j < m2.elements.len() implies m2.elements[i].0 < m2.elements[j].0 by {
            if i < p && j > p {
                assert(m2.elements[i] == m.elements[i]);
                assert(m2.elements[j] == m.elements[j - 1]);
            } else if i == p && j > p {
                assert(m2.elements[j] == m.elements[j - 1]);
            } else if i > p {
                assert(m2.elements[i] == m.elements[i - 1]);
                assert(m2.elements[j] == m.elements[j - 1]);
            }
        }
    }
}

/// Deleting an element keeps the element table sorted.
pub proof fn lemma_step_delete_element_wf(m: StoreModel, id: i64)
    requires
        m.wf(),
    ensures
        step_delete_element(m, id).0.wf(),
{
    let m2 = step_delete_element(m, id).0;
    if has_elem(m.elements, id) {
        let p = elem_pos(m.elements, id);
        m.elements.remove_ensures(p);
        assert forall|i: int, j: int|
            0 <= i < j < m2.elements.len() implies m2.elements[i].0 < m2.elements[j].0 by {
            if i < p && j >= p {
                assert(m2.elements[j] == m.elements[j + 1]);
            } else if i >= p {
                assert(m2.elements[i] == m.elements[i + 1]);
                assert(m2.elements[j] == m.elements[j + 1]);
            }
        }
    }
}

/// Adding a layer keeps the layer table sorted and every layer well formed.
pub proof fn lemma_step_add_layer_wf(m: StoreModel, id: u64, props: Seq<u8>)
    requires
        m.wf(),
    ensures
        step_add_layer(m, id, props).0.wf(),
{
    let m2 = step_add_layer(m, id, props).0;
    let fresh = LayerModel { id, properties: props, keyframes: Seq::empty(), cache: Seq::empty() };
    assert(fresh.wf());
    if has_layer(m.layers, id) {
        let p = layer_pos(m.layers, id);
        assert(m.layers[p].id == id);
        assert forall|i: int, j: int|
            0 <= i < j < m2.layers.len() implies m2.layers[i].id < m2.layers[j].id by {}
        assert forall|i: int| 0 <= i < m2.layers.len() implies (#[trigger] m2.layers[i]).wf() by {}
    } else {
        lemma_layer_ins_props(m.layers, id);
        let p = layer_ins(m.layers, id);
        m.layers.insert_ensures(p, fresh);
        assert forall|i: int, j: int|
            0 <= i < j < m2.layers.len() implies m2.layers[i].id < m2.layers[j].id by {
            if i < p && j > p {
                assert(m2.layers[i] == m.layers[i]);
                assert(m2.layers[j] == m.layers[j - 1]);
            } else if i == p && j > p {
                assert(m2.layers[j] == m.layers[j - 1]);
            } else if i > p {
                assert(m2.layers[i] == m.layers[i - 1]);
                assert(m2.layers[j] == m.layers[j - 1]);
            }
        }
        assert forall|i: int| 0 <= i < m2.layers.len() implies (#[trigger] m2.layers[i]).wf() by {
            if i < p {
                assert(m2.layers[i] == m.layers[i]);
            } else if i > p {
                assert(m2.layers[i] == m.layers[i - 1]);
            }
        }
    }
}

/// Deleting a layer keeps the layer table sorted and the attachment table
/// keys unique.
pub proof fn lemma_step_delete_layer_wf(m: StoreModel, id: u64)
    requires
        m.wf(),
    ensures
        step_delete_layer(m, id).0.wf(),
{
    let m2 = step_delete_layer(m, id).0;
    if has_layer(m.layers, id) {
        let p = layer_pos(m.layers, id);
        m.layers.remove_ensures(p);
        lemma_strip_layer_table_props(m.attachments, id);
        assert forall|i: int, j: int|
            0 <= i < j < m2.layers.len() implies m2.layers[i].id < m2.layers[j].id by {
            if i < p && j >= p {
                assert(m2.layers[j] == m.layers[j + 1]);
            } else if i >= p {
                assert(m2.layers[i] == m.layers[i + 1]);
                assert(m2.layers[j] == m.layers[j + 1]);
            }
        }
        assert forall|i: int| 0 <= i < m2.layers.len() implies (#[trigger] m2.layers[i]).wf() by {
            if i >= p {
                assert(m2.layers[i] == m.layers[i + 1]);
            }
        }
        assert forall|i: int, j: int|
            0 <= i < j < m2.attachments.len() implies m2.attachments[i].0 != m2.attachments[j].0 by {
            assert(m2.attachments[i].0 == m.attachments[i].0);
            assert(m2.attachments[j].0 == m.attachments[j].0);
        }
    }
}

/// Writing layer properties changes no id, keyframe or cache entry.
pub proof fn lemma_step_write_layer_properties_wf(m: StoreModel, id: u64, props: Seq<u8>)
    requires
        m.wf(),
    ensures
        step_write_layer_properties(m, id, props).0.wf(),
{
    let m2 = step_write_layer_properties(m, id, props).0;
    if has_layer(m.layers, id) {
        let p = layer_pos(m.layers, id);
        assert(m.layers[p].id == id);
        assert(m.layers[p].wf());
        assert forall|i: int, j: int|
            0 <= i < j < m2.layers.len() implies m2.layers[i].id < m2.layers[j].id by {}
        assert forall|i: int| 0 <= i < m2.layers.len() implies (#[trigger] m2.layers[i]).wf() by {}
    }
}

/// Adding a keyframe keeps the layer's keyframe times strictly ascending.
pub proof fn lemma_step_add_key_frame_wf(m: StoreModel, layer_id: u64, when: u64)
    requires
        m.wf(),
    ensures
        step_add_key_frame(m, layer_id, when).0.wf(),
{
    let m2 = step_add_key_frame(m, layer_id, when).0;
    if has_layer(m.layers, layer_id) {
        let p = layer_pos(m.layers, layer_id);
        let kfs = m.layers[p].keyframes;
        assert(m.layers[p].wf());
        if !has_kf(kfs, when) {
            lemma_kf_ins_props(kfs, when);
            let q = kf_ins(kfs, when);
            let fresh = KeyFrameModel { when, attached: Seq::empty() };
            kfs.insert_ensures(q, fresh);
            let kfs2 = kfs.insert(q, fresh);
            assert(forall|i: int| 0 <= i < kfs.len() ==> (#[trigger] kfs[i]).when != when);
            assert forall|i: int, j: int|
                0 <= i < j < kfs2.len() implies kfs2[i].when < kfs2[j].when by {
                if i < q && j > q {
                    assert(kfs2[i] == kfs[i]);
                    assert(kfs2[j] == kfs[j - 1]);
                } else if i == q && j > q {
                    assert(kfs2[j] == kfs[j - 1]);
                } else if i > q {
                    assert(kfs2[i] == kfs[i - 1]);
                    assert(kfs2[j] == kfs[j - 1]);
                }
            }
            assert forall|i: int| 0 <= i < kfs2.len() implies (#[trigger] kfs2[i]).wf() by {
                if i < q {
                    assert(kfs2[i] == kfs[i]);
                } else if i > q {
                    assert(kfs2[i] == kfs[i - 1]);
                }
            }
            assert(m2.layers[p].wf());
            assert forall|i: int, j: int|
                0 <= i < j < m2.layers.len() implies m2.layers[i].id < m2.layers[j].id by {}
            assert forall|i: int|
                0 <= i < m2.layers.len() implies (#[trigger] m2.layers[i]).wf() by {}
        }
    }
}

/// Deleting a keyframe keeps the layer's keyframe times strictly ascending
/// and the attachment table keys unique.
pub proof fn lemma_step_delete_key_frame_wf(m: StoreModel, layer_id: u64, when: u64)
    requires
        m.wf(),
    ensures
        step_delete_key_frame(m, layer_id, when).0.wf(),
{
    let m2 = step_delete_key_frame(m, layer_id, when).0;
    if has_layer(m.layers, layer_id) {
        let p = layer_pos(m.layers, layer_id);
        let kfs = m.layers[p].keyframes;
        assert(m.layers[p].wf());
        if has_kf(kfs, when) {
            let q = kf_pos(kfs, when);
            kfs.remove_ensures(q);
            let kfs2 = kfs.remove(q);
            lemma_strip_kf_table_props(m.attachments, layer_id, when);
            assert forall|i: int, j: int|
                0 <= i < j < kfs2.len() implies kfs2[i].when < kfs2[j].when by {
                if i < q && j >= q {
                    assert(kfs2[j] == kfs[j + 1]);
                } else if i >= q {
                    assert(kfs2[i] == kfs[i + 1]);
                    assert(kfs2[j] == kfs[j + 1]);
                }
            }
            assert forall|i: int| 0 <= i < kfs2.len() implies (#[trigger] kfs2[i]).wf() by {
                if i >= q {
                    assert(kfs2[i] == kfs[i + 1]);
                }
            }
            assert(m2.layers[p].wf());
            assert forall|i: int, j: int|
                0 <= i < j < m2.layers.len() implies m2.layers[i].id < m2.layers[j].id by {}
            assert forall|i: int|
                0 <= i < m2.layers.len() implies (#[trigger] m2.layers[i]).wf() by {}
            assert forall|i: int, j: int|
                0 <= i < j < m2.attachments.len() implies m2.attachments[i].0
                != m2.attachments[j].0 by {
                assert(m2.attachments[i].0 == m.attachments[i].0);
                assert(m2.attachments[j].0 == m.attachments[j].0);
            }
        }
    }
}

/// Attaching an element updates one keyframe in place and keeps both sides
/// well formed.
pub proof fn lemma_step_attach_element_wf(m: StoreModel, layer_id: u64, element_id: i64, when: u64)
    requires
        m.wf(),
    ensures
        step_attach_element(m, layer_id, element_id, when).0.wf(),
{
    let m2 = step_attach_element(m, layer_id, element_id, when).0;
    if has_layer(m.layers, layer_id) {
        let p = layer_pos(m.layers, layer_id);
        let kfs = m.layers[p].keyframes;
        assert(m.layers[p].wf());
        match kf_covering(kfs, when) {
            Some(k) => {
                if !has_kf(kfs, when) {
                    lemma_kf_ins_props(kfs, when);
                }
                assert(0 <= k < kfs.len());
                let kf = kfs[k];
                assert(kf.wf());
                let list2 = attach_to_list(kf.attached, element_id, when);
                assert forall|i: int, j: int|
                    0 <= i < j < list2.len() implies list2[i].0 != list2[j].0 by {
                    if has_attached(kf.attached, element_id) {
                        let a = attached_pos(kf.attached, element_id);
                        assert(kf.attached[a].0 == element_id);
                    } else {
                        assert(forall|w: int|
                            0 <= w < kf.attached.len() ==> (#[trigger] kf.attached[w]).0
                                != element_id);
                    }
                }
                let kfs2 = kfs.update(k, KeyFrameModel { when: kf.when, attached: list2 });
                assert forall|i: int, j: int|
                    0 <= i < j < kfs2.len() implies kfs2[i].when < kfs2[j].when by {}
                assert forall|i: int| 0 <= i < kfs2.len() implies (#[trigger] kfs2[i]).wf() by {}
                assert(m2.layers[p].wf());
                assert forall|i: int, j: int|
                    0 <= i < j < m2.layers.len() implies m2.layers[i].id < m2.layers[j].id by {}
                assert forall|i: int|
                    0 <= i < m2.layers.len() implies (#[trigger] m2.layers[i]).wf() by {}
                if has_att(m.attachments, element_id) {
                    let a = att_pos(m.attachments, element_id);
                    assert(m.attachments[a].0 == element_id);
                    assert forall|i: int, j: int|
                        0 <= i < j < m2.attachments.len() implies m2.attachments[i].0
                        != m2.attachments[j].0 by {}
                } else {
                    assert(forall|w: int|
                        0 <= w < m.attachments.len() ==> (#[trigger] m.attachments[w]).0
                            != element_id);
                    assert forall|i: int, j: int|
                        0 <= i < j < m2.attachments.len() implies m2.attachments[i].0
                        != m2.attachments[j].0 by {}
                }
            },
            None => {},
        }
    }
}

/// Detaching an element keeps every invariant: ids, times and order are
/// untouched, and attached lists only lose records.
pub proof fn lemma_step_detach_element_wf(m: StoreModel, element_id: i64)
    requires
        m.wf(),
    ensures
        step_detach_element(m, element_id).0.wf(),
{
    let m2 = step_detach_element(m, element_id).0;
    lemma_detach_layers_props(m.layers, element_id);
    assert forall|i: int, j: int|
        0 <= i < j < m2.layers.len() implies m2.layers[i].id < m2.layers[j].id by {}
    assert forall|i: int| 0 <= i < m2.layers.len() implies (#[trigger] m2.layers[i]).wf() by {
        assert(m.layers[i].wf());
        lemma_detach_kfs_props(m.layers[i].keyframes, element_id);
        let kfs2 = m2.layers[i].keyframes;
        assert forall|a: int, b: int| 0 <= a < b < kfs2.len() implies kfs2[a].when < kfs2[b].when by {}
        assert forall|k: int| 0 <= k < kfs2.len() implies (#[trigger] kfs2[k]).wf() by {
            lemma_detach_list_props(m.layers[i].keyframes[k].attached, element_id);
            assert(m.layers[i].keyframes[k].wf());
        }
    }
    if has_att(m.attachments, element_id) {
        let a = att_pos(m.attachments, element_id);
        m.attachments.remove_ensures(a);
        assert forall|i: int, j: int|
            0 <= i < j < m2.attachments.len() implies m2.attachments[i].0 != m2.attachments[j].0 by {
            if i < a && j >= a {
                assert(m2.attachments[j] == m.attachments[j + 1]);
            } else if i >= a {
                assert(m2.attachments[i] == m.attachments[i + 1]);
                assert(m2.attachments[j] == m.attachments[j + 1]);
            }
        }
    }
}

/// Writing a cache entry keeps cache keys unique.
pub proof fn lemma_step_write_layer_cache_wf(
    m: StoreModel,
    layer_id: u64,
    when: u64,
    key: Seq<u8>,
    value: Seq<u8>,
)
    requires
        m.wf(),
    ensures
        step_write_layer_cache(m, layer_id, when, key, value).0.wf(),
{
    let m2 = step_write_layer_cache(m, layer_id, when, key, value).0;
    if has_layer(m.layers, layer_id) {
        let p = layer_pos(m.layers, layer_id);
        let cache = m.layers[p].cache;
        assert(m.layers[p].wf());
        let entry = CacheEntryModel { when, key, value };
        if has_cache(cache, when, key) {
            let q = cache_pos(cache, when, key);
            assert(cache[q].when == when && cache[q].key == key);
            assert(m2.layers[p].wf());
        } else {
            assert(forall|w: int|
                0 <= w < cache.len() ==> !((#[trigger] cache[w]).when == when && cache[w].key
                    == key));
            assert(m2.layers[p].wf());
        }
        assert forall|i: int, j: int|
            0 <= i < j < m2.layers.len() implies m2.layers[i].id < m2.layers[j].id by {}
        assert forall|i: int| 0 <= i < m2.layers.len() implies (#[trigger] m2.layers[i]).wf() by {}
    }
}

/// Deleting a cache entry keeps cache keys unique.
pub proof fn lemma_step_delete_layer_cache_wf(m: StoreModel, layer_id: u64, when: u64, key: Seq<u8>)
    requires
        m.wf(),
    ensures
        step_delete_layer_cache(m, layer_id, when, key).0.wf(),
{
    let m2 = step_delete_layer_cache(m, layer_id, when, key).0;
    if has_layer(m.layers, layer_id) {
        let p = layer_pos(m.layers, layer_id);
        let cache = m.layers[p].cache;
        assert(m.layers[p].wf());
        if has_cache(cache, when, key) {
            let q = cache_pos(cache, when, key);
            cache.remove_ensures(q);
            let cache2 = cache.remove(q);
            assert forall|i: int, j: int|
                0 <= i < j < cache2.len() implies !(cache2[i].when == cache2[j].when && cache2[i].key
                == cache2[j].key) by {
                if i < q && j >= q {
                    assert(cache2[j] == cache[j + 1]);
                } else if i >= q {
                    assert(cache2[i] == cache[i + 1]);
                    assert(cache2[j] == cache[j + 1]);
                }
            }
            assert(m2.layers[p].wf());
        }
        assert forall|i: int, j: int|
            0 <= i < j < m2.layers.len() implies m2.layers[i].id < m2.layers[j].id by {}
        assert forall|i: int| 0 <= i < m2.layers.len() implies (#[trigger] m2.layers[i]).wf() by {}
    }
}

/// Every command preserves the structural invariants of the store; in
/// particular, the keyframe times of every layer stay strictly ascending
/// and unique under every sequence of keyframe insertions and removals.
pub proof fn lemma_apply_command_wf(m: StoreModel, c: CommandModel)
    requires
        m.wf(),
    ensures
        apply_command(m, c).0.wf(),
{
    match c {
        CommandModel::WriteElement(id, value) => lemma_step_write_element_wf(m, id, value),
        CommandModel::DeleteElement(id) => lemma_step_delete_element_wf(m, id),
        CommandModel::AddLayer(id, props) => lemma_step_add_layer_wf(m, id, props),
        CommandModel::DeleteLayer(id) => lemma_step_delete_layer_wf(m, id),
        CommandModel::WriteLayerProperties(id, props) => lemma_step_write_layer_properties_wf(
            m,
            id,
            props,
        ),
        CommandModel::AddKeyFrame(layer_id, when) => lemma_step_add_key_frame_wf(m, layer_id, when),
        CommandModel::DeleteKeyFrame(layer_id, when) => lemma_step_delete_key_frame_wf(
            m,
            layer_id,
            when,
        ),
        CommandModel::AttachElementToLayer(layer_id, element_id, when) => lemma_step_attach_element_wf(
            m,
            layer_id,
            element_id,
            when,
        ),
        CommandModel::DetachElementFromLayer(element_id) => lemma_step_detach_element_wf(
            m,
            element_id,
        ),
        CommandModel::WriteLayerCache(layer_id, when, key, value) => lemma_step_write_layer_cache_wf(
            m,
            layer_id,
            when,
            key,
            value,
        ),
        CommandModel::DeleteLayerCache(layer_id, when, key) => lemma_step_delete_layer_cache_wf(
            m,
            layer_id,
            when,
            key,
        ),
        _ => {},
    }
}

/// Invariant preservation for a whole batch: however many keyframes are
/// added or removed, every layer's keyframe times stay strictly ascending.
pub proof fn lemma_apply_commands_wf(m: StoreModel, cs: Seq<CommandModel>)
    requires
        m.wf(),
    ensures
        apply_commands(m, cs).0.wf(),
    decreases cs.len(),
{
    if cs.len() > 0 {
        lemma_apply_command_wf(m, cs[0]);
        lemma_apply_commands_wf(apply_command(m, cs[0]).0, cs.drop_first());
    }
}

/// Splitting a batch at its last command: the responses of `cs.push(c)` are
/// those of `cs` followed by those of `c` in the state `cs` leads to.
pub proof fn lemma_apply_commands_snoc(m: StoreModel, cs: Seq<CommandModel>, c: CommandModel)
    ensures
        apply_commands(m, cs.push(c)).0 == apply_command(apply_commands(m, cs).0, c).0,
        apply_commands(m, cs.push(c)).1 == apply_commands(m, cs).1 + apply_command(
            apply_commands(m, cs).0,
            c,
        ).1,
    decreases cs.len(),
{
    let cs1 = cs.push(c);
    if cs.len() == 0 {
        assert(cs1[0] == c);
        assert(cs1.drop_first() =~= Seq::<CommandModel>::empty());
        let (m1, rs1) = apply_command(m, c);
        assert(apply_commands(m1, cs1.drop_first()) == (m1, Seq::<ResponseModel>::empty()));
        assert(apply_commands(m, cs1).0 == m1);
        assert(apply_commands(m, cs1).1 == rs1 + Seq::<ResponseModel>::empty());
        assert(apply_commands(m, cs) == (m, Seq::<ResponseModel>::empty()));
        assert(rs1 + Seq::<ResponseModel>::empty() =~= rs1);
        assert(Seq::<ResponseModel>::empty() + rs1 =~= rs1);
    } else {
        assert(cs1[0] == cs[0]);
        assert(cs1.drop_first() =~= cs.drop_first().push(c));
        let (m1, rs1) = apply_command(m, cs[0]);
        lemma_apply_commands_snoc(m1, cs.drop_first(), c);
        let (mr, rsr) = apply_commands(m1, cs.drop_first());
        let (mc, rsc) = apply_command(mr, c);
        assert(apply_commands(m, cs1).0 == apply_commands(m1, cs1.drop_first()).0);
        assert(apply_commands(m, cs1).1 == rs1 + apply_commands(m1, cs1.drop_first()).1);
        assert(apply_commands(m, cs).0 == mr);
        assert(apply_commands(m, cs).1 == rs1 + rsr);
        assert(rs1 + (rsr + rsc) =~= (rs1 + rsr) + rsc);
    }
}

} // verus!
