//! The in-memory storage core: the authoritative owner of all mutable
//! animation state, applying one batch of storage commands at a time.
//!
//! Layers and elements are kept sorted by id and a layer's keyframes sorted
//! by time, so that every lookup is a binary search and every mutation an
//! ordered insertion or removal.  [`InMemoryStorageCore::run_commands`] is
//! proved to implement [`crate::store_model::apply_commands`] exactly: the
//! state afterwards and the responses are the model's, for every batch.

use vstd::prelude::*;
use crate::protocol::{CommandModel, ResponseModel, StorageCommand, StorageResponse};
use crate::store_model::{
    AttachmentModel, CacheEntryModel, KeyFrameModel, LayerModel, StoreModel, apply_command,
    apply_commands, att_pairs, att_pos, attach_to_list, attached_ids, attached_pos, cache_pos,
    command_valid, commands_valid, detach_from_layers, detach_from_kfs, detach_from_list, elem_ins,
    elem_pos, has_att, has_attached, has_cache, has_elem, has_kf, has_layer, highest_unused_element_id,
    kf_covering, kf_end, kf_ins, kf_pos, kf_range_start, layer_ins, layer_pos,
    lemma_apply_command_wf, lemma_apply_commands_snoc, lemma_apply_commands_wf, lemma_elem_ins_props,
    lemma_kf_ins_props, lemma_layer_ins_props, lemma_detach_layers_props, lemma_detach_kfs_props,
    lemma_detach_list_props, lemma_strip_kf_table_props, lemma_strip_layer_table_props,
    step_add_key_frame, step_add_layer, step_attach_element, step_delete_element,
    step_delete_key_frame, step_delete_layer, step_delete_layer_cache, step_detach_element,
    step_read_animation_properties, step_read_edit_log_length, step_read_edits, step_read_element,
    step_read_element_attachments, step_read_elements_for_key_frame, step_read_highest_unused,
    step_read_key_frames, step_read_layer_cache, step_read_layer_properties, step_read_layers,
    step_write_animation_properties, step_write_edit, step_write_element, step_write_layer_cache,
    step_write_layer_properties, strip_kf_atts, strip_kf_table, strip_layer_atts, strip_layer_table,
};

verus! {

/// A keyframe: its start time, and the attached elements with their
/// appearance times, unique by element id.
pub struct InMemoryKeyFrameStorage {
    /// The time when this frame appears.
    pub when: u64,
    /// The ids of the elements attached to this keyframe, each with the
    /// time at which it appears within the keyframe.
    pub attached_elements: Vec<(i64, u64)>,
}

/// One cached rendering stored against a layer.
pub struct CacheEntry {
    /// The time the cached rendering is for.
    pub when: u64,
    /// The canonical serialized cache kind.
    pub key: Vec<u8>,
    /// The cached payload.
    pub value: Vec<u8>,
}

/// A layer: its properties, its keyframes sorted by time, and its cache.
pub struct InMemoryLayerStorage {
    /// The id of this layer.
    pub id: u64,
    /// The properties for this layer.
    pub properties: Vec<u8>,
    /// The keyframes of this layer, strictly ascending by time.
    pub keyframes: Vec<InMemoryKeyFrameStorage>,
    /// The cached renderings for this layer.
    pub cache: Vec<CacheEntry>,
}

/// Where an element is attached: a layer and one of its keyframe times.
pub struct ElementAttachment {
    pub layer_id: u64,
    pub keyframe_time: u64,
}

/// The authoritative in-memory animation state.
pub struct InMemoryStorageCore {
    /// The properties for the animation, absent until first written.
    pub animation_properties: Option<Vec<u8>>,
    /// The append-only edit log.
    pub edit_log: Vec<Vec<u8>>,
    /// The definitions for each element, sorted by id.
    pub elements: Vec<(i64, Vec<u8>)>,
    /// The keyframes that each element is attached to.
    pub element_attachments: Vec<(i64, Vec<ElementAttachment>)>,
    /// The layers, sorted by id.
    pub layers: Vec<InMemoryLayerStorage>,
}

impl DeepView for InMemoryKeyFrameStorage {
    type V = KeyFrameModel;

    open spec fn deep_view(&self) -> KeyFrameModel {
        KeyFrameModel { when: self.when, attached: self.attached_elements.deep_view() }
    }
}

impl DeepView for CacheEntry {
    type V = CacheEntryModel;

    open spec fn deep_view(&self) -> CacheEntryModel {
        CacheEntryModel {
            when: self.when,
            key: self.key.deep_view(),
            value: self.value.deep_view(),
        }
    }
}

impl DeepView for InMemoryLayerStorage {
    type V = LayerModel;

    open spec fn deep_view(&self) -> LayerModel {
        LayerModel {
            id: self.id,
            properties: self.properties.deep_view(),
            keyframes: self.keyframes.deep_view(),
            cache: self.cache.deep_view(),
        }
    }
}

impl DeepView for ElementAttachment {
    type V = AttachmentModel;

    open spec fn deep_view(&self) -> AttachmentModel {
        AttachmentModel { layer_id: self.layer_id, keyframe_time: self.keyframe_time }
    }
}

impl DeepView for InMemoryStorageCore {
    type V = StoreModel;

    open spec fn deep_view(&self) -> StoreModel {
        StoreModel {
            animation_properties: self.animation_properties.deep_view(),
            edit_log: self.edit_log.deep_view(),
            elements: self.elements.deep_view(),
            layers: self.layers.deep_view(),
            attachments: self.element_attachments.deep_view(),
        }
    }
}

impl InMemoryStorageCore {
    /// The structural invariants, stated on the mathematical view.
    pub open spec fn inv(&self) -> bool {
        self.deep_view().wf()
    }

    /// Creates an empty store.
    pub fn new() -> (core: InMemoryStorageCore)
        ensures
            core.deep_view() == StoreModel::empty(),
            core.inv(),
    {
        let core = InMemoryStorageCore {
            animation_properties: None,
            edit_log: Vec::new(),
            elements: Vec::new(),
            element_attachments: Vec::new(),
            layers: Vec::new(),
        };
        proof {
            assert(core.deep_view() =~~= StoreModel::empty());
        }
        core
    }
}

/// Binary search for a layer by id: the exact index, or the ordered
/// insertion point.
fn find_layer(layers: &Vec<InMemoryLayerStorage>, id: u64) -> (r: Result<usize, usize>)
    requires
        forall|i: int, j: int|
            0 <= i < j < layers.deep_view().len() ==> layers.deep_view()[i].id
                < layers.deep_view()[j].id,
    ensures
        match r {
            Ok(i) => has_layer(layers.deep_view(), id) && i == layer_pos(layers.deep_view(), id)
                && i < layers.len() && layers.deep_view()[i as int].id == id,
            Err(p) => !has_layer(layers.deep_view(), id) && p == layer_ins(layers.deep_view(), id)
                && p <= layers.len(),
        },
{
    let ghost ldv = layers.deep_view();
    let mut lo: usize = 0;
    let mut hi: usize = layers.len();
    proof {
        assert(forall|i: int| 0 <= i < layers@.len() ==> ldv[i].id == (#[trigger] layers@[i]).id);
    }
    while lo < hi
        invariant
            lo <= hi <= layers.len(),
            ldv == layers.deep_view(),
            ldv.len() == layers.len(),
            forall|i: int| 0 <= i < layers@.len() ==> ldv[i].id == (#[trigger] layers@[i]).id,
            forall|i: int, j: int| 0 <= i < j < ldv.len() ==> ldv[i].id < ldv[j].id,
            forall|i: int| 0 <= i < lo ==> (#[trigger] ldv[i]).id < id,
            forall|i: int| hi <= i < ldv.len() ==> id < (#[trigger] ldv[i]).id,
        decreases hi - lo,
    {
        let mid = lo + (hi - lo) / 2;
        if layers[mid].id == id {
            proof {
                assert(ldv[mid as int].id == id);
                let w = layer_pos(ldv, id);
                assert(ldv[w].id == id);
                if w < mid {
                    assert(ldv[w].id < ldv[mid as int].id);
                } else if w > mid {
                    assert(ldv[mid as int].id < ldv[w].id);
                }
            }
            return Ok(mid);
        } else if layers[mid].id < id {
            lo = mid + 1;
        } else {
            hi = mid;
        }
    }
    proof {
        if has_layer(ldv, id) {
            let w = choose|i: int| 0 <= i < ldv.len() && ldv[i].id == id;
            assert(ldv[w].id == id);
        }
        lemma_layer_ins_props(ldv, id);
        let p = layer_ins(ldv, id);
        if p < lo {
            assert(ldv[p].id < id);
            assert(id <= ldv[p].id);
        }
        if p > lo {
            assert(ldv[lo as int].id < id);
            assert(id <= ldv[lo as int].id);
        }
    }
    Err(lo)
}

/// Binary search for a keyframe by time: the exact index, or the ordered
/// insertion point.
fn find_kf(kfs: &Vec<InMemoryKeyFrameStorage>, when: u64) -> (r: Result<usize, usize>)
    requires
        forall|i: int, j: int|
            0 <= i < j < kfs.deep_view().len() ==> kfs.deep_view()[i].when
                < kfs.deep_view()[j].when,
    ensures
        match r {
            Ok(i) => has_kf(kfs.deep_view(), when) && i == kf_pos(kfs.deep_view(), when) && i
                < kfs.len() && kfs.deep_view()[i as int].when == when,
            Err(p) => !has_kf(kfs.deep_view(), when) && p == kf_ins(kfs.deep_view(), when) && p
                <= kfs.len(),
        },
{
    let ghost kdv = kfs.deep_view();
    let mut lo: usize = 0;
    let mut hi: usize = kfs.len();
    proof {
        assert(forall|i: int| 0 <= i < kfs@.len() ==> kdv[i].when == (#[trigger] kfs@[i]).when);
    }
    while lo < hi
        invariant
            lo <= hi <= kfs.len(),
            kdv == kfs.deep_view(),
            kdv.len() == kfs.len(),
            forall|i: int| 0 <= i < kfs@.len() ==> kdv[i].when == (#[trigger] kfs@[i]).when,
            forall|i: int, j: int| 0 <= i < j < kdv.len() ==> kdv[i].when < kdv[j].when,
            forall|i: int| 0 <= i < lo ==> (#[trigger] kdv[i]).when < when,
            forall|i: int| hi <= i < kdv.len() ==> when < (#[trigger] kdv[i]).when,
        decreases hi - lo,
    {
        let mid = lo + (hi - lo) / 2;
        if kfs[mid].when == when {
            proof {
                assert(kdv[mid as int].when == when);
                let w = kf_pos(kdv, when);
                assert(kdv[w].when == when);
                if w < mid {
                    assert(kdv[w].when < kdv[mid as int].when);
                } else if w > mid {
                    assert(kdv[mid as int].when < kdv[w].when);
                }
            }
            return Ok(mid);
        } else if kfs[mid].when < when {
            lo = mid + 1;
        } else {
            hi = mid;
        }
    }
    proof {
        if has_kf(kdv, when) {
            let w = choose|i: int| 0 <= i < kdv.len() && kdv[i].when == when;
            assert(kdv[w].when == when);
        }
        lemma_kf_ins_props(kdv, when);
        let p = kf_ins(kdv, when);
        if p < lo {
            assert(kdv[p].when < when);
            assert(when <= kdv[p].when);
        }
        if p > lo {
            assert(kdv[lo as int].when < when);
            assert(when <= kdv[lo as int].when);
        }
    }
    Err(lo)
}

/// Binary search for an element by id: the exact index, or the ordered
/// insertion point.
fn find_elem(elems: &Vec<(i64, Vec<u8>)>, id: i64) -> (r: Result<usize, usize>)
    requires
        forall|i: int, j: int|
            0 <= i < j < elems.deep_view().len() ==> elems.deep_view()[i].0
                < elems.deep_view()[j].0,
    ensures
        match r {
            Ok(i) => has_elem(elems.deep_view(), id) && i == elem_pos(elems.deep_view(), id) && i
                < elems.len() && elems.deep_view()[i as int].0 == id,
            Err(p) => !has_elem(elems.deep_view(), id) && p == elem_ins(elems.deep_view(), id) && p
                <= elems.len(),
        },
{
    let ghost edv = elems.deep_view();
    let mut lo: usize = 0;
    let mut hi: usize = elems.len();
    proof {
        assert(forall|i: int| 0 <= i < elems@.len() ==> edv[i].0 == (#[trigger] elems@[i]).0);
    }
    while lo < hi
        invariant
            lo <= hi <= elems.len(),
            edv == elems.deep_view(),
            edv.len() == elems.len(),
            forall|i: int| 0 <= i < elems@.len() ==> edv[i].0 == (#[trigger] elems@[i]).0,
            forall|i: int, j: int| 0 <= i < j < edv.len() ==> edv[i].0 < edv[j].0,
            forall|i: int| 0 <= i < lo ==> (#[trigger] edv[i]).0 < id,
            forall|i: int| hi <= i < edv.len() ==> id < (#[trigger] edv[i]).0,
        decreases hi - lo,
    {
        let mid = lo + (hi - lo) / 2;
        if elems[mid].0 == id {
            proof {
                assert(edv[mid as int].0 == id);
                let w = elem_pos(edv, id);
                assert(edv[w].0 == id);
                if w < mid {
                    assert(edv[w].0 < edv[mid as int].0);
                } else if w > mid {
                    assert(edv[mid as int].0 < edv[w].0);
                }
            }
            return Ok(mid);
        } else if elems[mid].0 < id {
            lo = mid + 1;
        } else {
            hi = mid;
        }
    }
    proof {
        if has_elem(edv, id) {
            let w = choose|i: int| 0 <= i < edv.len() && edv[i].0 == id;
            assert(edv[w].0 == id);
        }
        lemma_elem_ins_props(edv, id);
        let p = elem_ins(edv, id);
        if p < lo {
            assert(edv[p].0 < id);
            assert(id <= edv[p].0);
        }
        if p > lo {
            assert(edv[lo as int].0 < id);
            assert(id <= edv[lo as int].0);
        }
    }
    Err(lo)
}

/// Compares two byte vectors for equal contents.
fn bytes_eq(a: &Vec<u8>, b: &Vec<u8>) -> (r: bool)
    ensures
        r == (a.deep_view() == b.deep_view()),
{
    proof {
        assert(a.deep_view().len() == a@.len());
        assert(b.deep_view().len() == b@.len());
    }
    if a.len() != b.len() {
        proof {
            assert(a.deep_view() != b.deep_view());
        }
        return false;
    }
    let mut i: usize = 0;
    while i < a.len()
        invariant
            i <= a.len(),
            a@.len() == b@.len(),
            forall|k: int| 0 <= k < i ==> a@[k] == b@[k],
        decreases a.len() - i,
    {
        if a[i] != b[i] {
            proof {
                assert(a.deep_view()[i as int] == a@[i as int]);
                assert(b.deep_view()[i as int] == b@[i as int]);
            }
            return false;
        }
        i = i + 1;
    }
    proof {
        assert(a.deep_view() =~= b.deep_view());
    }
    true
}

/// Linear search of the attachment table for an element's entry.
fn find_att(atts: &Vec<(i64, Vec<ElementAttachment>)>, id: i64) -> (r: Option<usize>)
    requires
        forall|i: int, j: int|
            0 <= i < j < atts.deep_view().len() ==> atts.deep_view()[i].0 != atts.deep_view()[j].0,
    ensures
        match r {
            Some(i) => has_att(atts.deep_view(), id) && i == att_pos(atts.deep_view(), id) && i
                < atts.len() && atts.deep_view()[i as int].0 == id,
            None => !has_att(atts.deep_view(), id),
        },
{
    let ghost adv = atts.deep_view();
    proof {
        assert(forall|i: int| 0 <= i < atts@.len() ==> adv[i].0 == (#[trigger] atts@[i]).0);
    }
    let mut i: usize = 0;
    while i < atts.len()
        invariant
            i <= atts.len(),
            adv == atts.deep_view(),
            adv.len() == atts.len(),
            forall|k: int| 0 <= k < atts@.len() ==> adv[k].0 == (#[trigger] atts@[k]).0,
            forall|i2: int, j2: int| 0 <= i2 < j2 < adv.len() ==> adv[i2].0 != adv[j2].0,
            forall|k: int| 0 <= k < i ==> (#[trigger] adv[k]).0 != id,
        decreases atts.len() - i,
    {
        if atts[i].0 == id {
            proof {
                assert(adv[i as int].0 == id);
                let w = att_pos(adv, id);
                assert(adv[w].0 == id);
            }
            return Some(i);
        }
        i = i + 1;
    }
    proof {
        if has_att(adv, id) {
            let w = choose|k: int| 0 <= k < adv.len() && adv[k].0 == id;
            assert(adv[w].0 == id);
        }
    }
    None
}

/// Linear search of a keyframe's attached list for an element id.
fn find_attached(attached: &Vec<(i64, u64)>, id: i64) -> (r: Option<usize>)
    requires
        forall|i: int, j: int|
            0 <= i < j < attached.deep_view().len() ==> attached.deep_view()[i].0
                != attached.deep_view()[j].0,
    ensures
        match r {
            Some(i) => has_attached(attached.deep_view(), id) && i == attached_pos(
                attached.deep_view(),
                id,
            ) && i < attached.len() && attached.deep_view()[i as int].0 == id,
            None => !has_attached(attached.deep_view(), id),
        },
{
    let ghost adv = attached.deep_view();
    proof {
        assert(forall|i: int| 0 <= i < attached@.len() ==> adv[i] == (#[trigger] attached@[i]));
    }
    let mut i: usize = 0;
    while i < attached.len()
        invariant
            i <= attached.len(),
            adv == attached.deep_view(),
            adv.len() == attached.len(),
            forall|k: int| 0 <= k < attached@.len() ==> adv[k] == (#[trigger] attached@[k]),
            forall|i2: int, j2: int| 0 <= i2 < j2 < adv.len() ==> adv[i2].0 != adv[j2].0,
            forall|k: int| 0 <= k < i ==> (#[trigger] adv[k]).0 != id,
        decreases attached.len() - i,
    {
        if attached[i].0 == id {
            proof {
                assert(adv[i as int].0 == id);
                let w = attached_pos(adv, id);
                assert(adv[w].0 == id);
            }
            return Some(i);
        }
        i = i + 1;
    }
    proof {
        if has_attached(adv, id) {
            let w = choose|k: int| 0 <= k < adv.len() && adv[k].0 == id;
            assert(adv[w].0 == id);
        }
    }
    None
}

/// Linear search of a layer's cache for the entry with the given time and
/// key.
fn find_cache(cache: &Vec<CacheEntry>, when: u64, key: &Vec<u8>) -> (r: Option<usize>)
    requires
        forall|i: int, j: int|
            0 <= i < j < cache.deep_view().len() ==> !(cache.deep_view()[i].when
                == cache.deep_view()[j].when && cache.deep_view()[i].key
                == cache.deep_view()[j].key),
    ensures
        match r {
            Some(i) => has_cache(cache.deep_view(), when, key.deep_view()) && i == cache_pos(
                cache.deep_view(),
                when,
                key.deep_view(),
            ) && i < cache.len() && cache.deep_view()[i as int].when == when
                && cache.deep_view()[i as int].key == key.deep_view(),
            None => !has_cache(cache.deep_view(), when, key.deep_view()),
        },
{
    let ghost cdv = cache.deep_view();
    let ghost kdv = key.deep_view();
    proof {
        assert(forall|i: int|
            0 <= i < cache@.len() ==> cdv[i] == (#[trigger] cache@[i]).deep_view());
    }
    let mut i: usize = 0;
    while i < cache.len()
        invariant
            i <= cache.len(),
            cdv == cache.deep_view(),
            kdv == key.deep_view(),
            cdv.len() == cache.len(),
            forall|k: int| 0 <= k < cache@.len() ==> cdv[k] == (#[trigger] cache@[k]).deep_view(),
            forall|i2: int, j2: int|
                0 <= i2 < j2 < cdv.len() ==> !(cdv[i2].when == cdv[j2].when && cdv[i2].key
                    == cdv[j2].key),
            forall|k: int| 0 <= k < i ==> !((#[trigger] cdv[k]).when == when && cdv[k].key == kdv),
        decreases cache.len() - i,
    {
        if cache[i].when == when && bytes_eq(&cache[i].key, key) {
            proof {
                assert(cdv[i as int].when == when && cdv[i as int].key == kdv);
                let w = cache_pos(cdv, when, kdv);
                assert(cdv[w].when == when && cdv[w].key == kdv);
            }
            return Some(i);
        }
        i = i + 1;
    }
    proof {
        if has_cache(cdv, when, kdv) {
            let w = choose|k: int| 0 <= k < cdv.len() && cdv[k].when == when && cdv[k].key == kdv;
            assert(cdv[w].when == when && cdv[w].key == kdv);
        }
    }
    None
}

/// An attachment list without the records that point at the given layer.
fn strip_layer_from_list(list: &Vec<ElementAttachment>, layer_id: u64) -> (r: Vec<
    ElementAttachment,
>)
    ensures
        r.deep_view() == strip_layer_atts(list.deep_view(), layer_id),
{
    let ghost ldv = list.deep_view();
    let mut r: Vec<ElementAttachment> = Vec::new();
    let mut i: usize = 0;
    while i < list.len()
        invariant
            i <= list.len(),
            ldv == list.deep_view(),
            ldv.len() == list.len(),
            r.deep_view() == strip_layer_atts(ldv.take(i as int), layer_id),
        decreases list.len() - i,
    {
        proof {
            assert(ldv.take(i + 1).drop_last() =~= ldv.take(i as int));
            assert(ldv.take(i + 1).last() == ldv[i as int]);
            assert(ldv[i as int] == list@[i as int].deep_view());
        }
        if list[i].layer_id != layer_id {
            let keep = ElementAttachment {
                layer_id: list[i].layer_id,
                keyframe_time: list[i].keyframe_time,
            };
            r.push(keep);
            proof {
                assert(r.deep_view() =~= strip_layer_atts(ldv.take(i + 1), layer_id));
            }
        } else {
            proof {
                assert(r.deep_view() =~= strip_layer_atts(ldv.take(i + 1), layer_id));
            }
        }
        i = i + 1;
    }
    proof {
        assert(ldv.take(ldv.len() as int) =~= ldv);
    }
    r
}

/// An attachment list without the records that point at the given keyframe.
fn strip_kf_from_list(list: &Vec<ElementAttachment>, layer_id: u64, when: u64) -> (r: Vec<
    ElementAttachment,
>)
    ensures
        r.deep_view() == strip_kf_atts(list.deep_view(), layer_id, when),
{
    let ghost ldv = list.deep_view();
    let mut r: Vec<ElementAttachment> = Vec::new();
    let mut i: usize = 0;
    while i < list.len()
        invariant
            i <= list.len(),
            ldv == list.deep_view(),
            ldv.len() == list.len(),
            r.deep_view() == strip_kf_atts(ldv.take(i as int), layer_id, when),
        decreases list.len() - i,
    {
        proof {
            assert(ldv.take(i + 1).drop_last() =~= ldv.take(i as int));
            assert(ldv.take(i + 1).last() == ldv[i as int]);
            assert(ldv[i as int] == list@[i as int].deep_view());
        }
        if list[i].layer_id == layer_id && list[i].keyframe_time == when {
            proof {
                assert(r.deep_view() =~= strip_kf_atts(ldv.take(i + 1), layer_id, when));
            }
        } else {
            let keep = ElementAttachment {
                layer_id: list[i].layer_id,
                keyframe_time: list[i].keyframe_time,
            };
            r.push(keep);
            proof {
                assert(r.deep_view() =~= strip_kf_atts(ldv.take(i + 1), layer_id, when));
            }
        }
        i = i + 1;
    }
    proof {
        assert(ldv.take(ldv.len() as int) =~= ldv);
    }
    r
}

/// A keyframe's attached list without the given element.
fn detach_list(attached: &Vec<(i64, u64)>, id: i64) -> (r: Vec<(i64, u64)>)
    ensures
        r.deep_view() == detach_from_list(attached.deep_view(), id),
{
    let ghost adv = attached.deep_view();
    let mut r: Vec<(i64, u64)> = Vec::new();
    let mut i: usize = 0;
    while i < attached.len()
        invariant
            i <= attached.len(),
            adv == attached.deep_view(),
            adv.len() == attached.len(),
            r.deep_view() == detach_from_list(adv.take(i as int), id),
        decreases attached.len() - i,
    {
        proof {
            assert(adv.take(i + 1).drop_last() =~= adv.take(i as int));
            assert(adv.take(i + 1).last() == adv[i as int]);
            assert(adv[i as int] == attached@[i as int].deep_view());
        }
        if attached[i].0 == id {
            proof {
                assert(r.deep_view() =~= detach_from_list(adv.take(i + 1), id));
            }
        } else {
            r.push((attached[i].0, attached[i].1));
            proof {
                assert(r.deep_view() =~= detach_from_list(adv.take(i + 1), id));
            }
        }
        i = i + 1;
    }
    proof {
        assert(adv.take(adv.len() as int) =~= adv);
    }
    r
}

/// Copies a layer's cache; the copy has the same entries.
fn copy_cache(cache: &Vec<CacheEntry>) -> (r: Vec<CacheEntry>)
    ensures
        r.deep_view() == cache.deep_view(),
{
    let ghost cdv = cache.deep_view();
    let mut r: Vec<CacheEntry> = Vec::new();
    let mut i: usize = 0;
    while i < cache.len()
        invariant
            i <= cache.len(),
            cdv == cache.deep_view(),
            cdv.len() == cache.len(),
            r.deep_view() == cdv.take(i as int),
        decreases cache.len() - i,
    {
        proof {
            assert(cdv[i as int] == cache@[i as int].deep_view());
        }
        let entry = CacheEntry {
            when: cache[i].when,
            key: copy_bytes(&cache[i].key),
            value: copy_bytes(&cache[i].value),
        };
        r.push(entry);
        proof {
            assert(entry.deep_view() =~~= cdv[i as int]);
            assert(cdv.take(i + 1) =~= cdv.take(i as int).push(cdv[i as int]));
            assert(r.deep_view() =~= cdv.take(i as int).push(cdv[i as int]));
        }
        i = i + 1;
    }
    proof {
        assert(cdv.take(cdv.len() as int) =~= cdv);
    }
    r
}

/// A layer's keyframes with the given element detached from each.
fn detach_kfs_vec(kfs: &Vec<InMemoryKeyFrameStorage>, id: i64) -> (r: Vec<InMemoryKeyFrameStorage>)
    ensures
        r.deep_view() == detach_from_kfs(kfs.deep_view(), id),
{
    let ghost kdv = kfs.deep_view();
    let mut r: Vec<InMemoryKeyFrameStorage> = Vec::new();
    let mut i: usize = 0;
    while i < kfs.len()
        invariant
            i <= kfs.len(),
            kdv == kfs.deep_view(),
            kdv.len() == kfs.len(),
            r.deep_view() == detach_from_kfs(kdv.take(i as int), id),
        decreases kfs.len() - i,
    {
        proof {
            assert(kdv.take(i + 1).drop_last() =~= kdv.take(i as int));
            assert(kdv.take(i + 1).last() == kdv[i as int]);
            assert(kdv[i as int] == kfs@[i as int].deep_view());
        }
        let kf = InMemoryKeyFrameStorage {
            when: kfs[i].when,
            attached_elements: detach_list(&kfs[i].attached_elements, id),
        };
        r.push(kf);
        proof {
            assert(r.deep_view() =~~= detach_from_kfs(kdv.take(i + 1), id));
        }
        i = i + 1;
    }
    proof {
        assert(kdv.take(kdv.len() as int) =~= kdv);
    }
    r
}

/// Copies a byte vector; the copy has the same contents.
fn copy_bytes(v: &Vec<u8>) -> (r: Vec<u8>)
    ensures
        r@ == v@,
        r.deep_view() == v.deep_view(),
{
    let mut r: Vec<u8> = Vec::new();
    let mut i: usize = 0;
    while i < v.len()
        invariant
            i <= v.len(),
            r@ == v@.take(i as int),
        decreases v.len() - i,
    {
        r.push(v[i]);
        proof {
            assert(r@ =~= v@.take(i + 1));
        }
        i = i + 1;
    }
    proof {
        assert(v@.take(v@.len() as int) =~= v@);
        assert(r.deep_view() =~= v.deep_view());
    }
    r
}

impl InMemoryStorageCore {
    /// Overwrites the animation properties blob; always acknowledged.
    fn do_write_animation_properties(
        &mut self,
        props: Vec<u8>,
        response: &mut Vec<StorageResponse>,
    )
        ensures
            ({
                let (m2, rs) = step_write_animation_properties(
                    old(self).deep_view(),
                    props.deep_view(),
                );
                final(self).deep_view() == m2 && final(response).deep_view() == old(
                    response,
                ).deep_view() + rs
            }),
    {
        let ghost m0 = self.deep_view();
        let ghost (m2, rs) = step_write_animation_properties(m0, props.deep_view());
        self.animation_properties = Some(props);
        response.push(StorageResponse::Updated);
        proof {
            assert(self.deep_view() =~~= m2);
            assert(response.deep_view() =~= old(response).deep_view() + rs);
        }
    }

    /// Reads the animation properties blob, or answers `NotFound`.
    fn do_read_animation_properties(&self, response: &mut Vec<StorageResponse>)
        ensures
            ({
                let (m2, rs) = step_read_animation_properties(self.deep_view());
                final(response).deep_view() == old(response).deep_view() + rs
            }),
    {
        let ghost (m2, rs) = step_read_animation_properties(self.deep_view());
        match &self.animation_properties {
            Some(props) => {
                let blob = copy_bytes(props);
                response.push(StorageResponse::AnimationProperties(blob));
            },
            None => {
                response.push(StorageResponse::NotFound);
            },
        }
        proof {
            assert(response.deep_view() =~= old(response).deep_view() + rs);
        }
    }

    /// Appends one edit to the edit log; always acknowledged.
    fn do_write_edit(&mut self, edit: Vec<u8>, response: &mut Vec<StorageResponse>)
        ensures
            ({
                let (m2, rs) = step_write_edit(old(self).deep_view(), edit.deep_view());
                final(self).deep_view() == m2 && final(response).deep_view() == old(
                    response,
                ).deep_view() + rs
            }),
    {
        let ghost m0 = self.deep_view();
        let ghost (m2, rs) = step_write_edit(m0, edit.deep_view());
        self.edit_log.push(edit);
        response.push(StorageResponse::Updated);
        proof {
            assert(self.edit_log.deep_view() =~= m2.edit_log);
            assert(self.deep_view() =~~= m2);
            assert(response.deep_view() =~= old(response).deep_view() + rs);
        }
    }

    /// Answers `max(element ids) + 1`, or 0 when no element exists.
    fn do_read_highest_unused(&self, response: &mut Vec<StorageResponse>)
        requires
            self.inv(),
        ensures
            ({
                let (m2, rs) = step_read_highest_unused(self.deep_view());
                final(response).deep_view() == old(response).deep_view() + rs
            }),
    {
        let ghost (m2, rs) = step_read_highest_unused(self.deep_view());
        let n = self.elements.len();
        let next = if n == 0 {
            0
        } else {
            let top = self.elements[n - 1].0;
            proof {
                assert(self.deep_view().elements[n - 1 as int].0 == top);
            }
            if top == i64::MAX {
                i64::MAX
            } else {
                top + 1
            }
        };
        response.push(StorageResponse::HighestUnusedElementId(next));
        proof {
            assert(response.deep_view() =~= old(response).deep_view() + rs);
        }
    }

    /// Answers the number of edit log entries.
    fn do_read_edit_log_length(&self, response: &mut Vec<StorageResponse>)
        ensures
            ({
                let (m2, rs) = step_read_edit_log_length(self.deep_view());
                final(response).deep_view() == old(response).deep_view() + rs
            }),
    {
        let ghost (m2, rs) = step_read_edit_log_length(self.deep_view());
        response.push(StorageResponse::NumberOfEdits(self.edit_log.len()));
        proof {
            assert(response.deep_view() =~= old(response).deep_view() + rs);
        }
    }

    /// Answers one edit per index in `start..end`.
    fn do_read_edits(&self, start: usize, end: usize, response: &mut Vec<StorageResponse>)
        requires
            start >= end || end <= self.edit_log.len(),
        ensures
            ({
                let (m2, rs) = step_read_edits(self.deep_view(), start, end);
                final(response).deep_view() == old(response).deep_view() + rs
            }),
    {
        let ghost m0 = self.deep_view();
        let ghost (m2, rs) = step_read_edits(m0, start, end);
        let ghost base = response.deep_view();
        let mut i = start;
        while i < end
            invariant
                start <= i,
                start >= end ==> i == start,
                start < end ==> i <= end && end <= self.edit_log.len(),
                m0 == self.deep_view(),
                rs == step_read_edits(m0, start, end).1,
                response.deep_view() == base + rs.take(i - start),
            decreases end - i,
        {
            let entry = copy_bytes(&self.edit_log[i]);
            proof {
                assert(self.deep_view().edit_log[i as int] == self.edit_log@[i as int].deep_view());
                assert(rs.len() == end - start);
                assert(rs[i - start] == ResponseModel::Edit(
                    (start + (i - start)) as usize,
                    m0.edit_log[start + (i - start)],
                ));
                assert(rs[i - start] == ResponseModel::Edit(i, m0.edit_log[i as int]));
            }
            response.push(StorageResponse::Edit(i, entry));
            proof {
                assert(rs.take(i - start).len() == i - start);
                assert(rs.take(i + 1 - start) =~= rs.take(i - start).push(rs[i - start]));
                assert(response.deep_view() =~= (base + rs.take(i - start)).push(rs[i - start]));
                assert(base + rs.take(i + 1 - start) =~= (base + rs.take(i - start)).push(
                    rs[i - start],
                ));
                assert(response.deep_view() == base + rs.take(i + 1 - start));
            }
            i = i + 1;
        }
        proof {
            assert(rs.take(rs.len() as int) =~= rs);
            if start >= end {
                assert(rs.take(i - start) =~= rs);
            }
        }
    }

    /// Creates or overwrites an element definition; always acknowledged.
    fn do_write_element(&mut self, id: i64, value: Vec<u8>, response: &mut Vec<StorageResponse>)
        requires
            old(self).inv(),
        ensures
            ({
                let (m2, rs) = step_write_element(old(self).deep_view(), id, value.deep_view());
                final(self).deep_view() == m2 && final(response).deep_view() == old(
                    response,
                ).deep_view() + rs
            }),
    {
        let ghost m0 = self.deep_view();
        let ghost (m2, rs) = step_write_element(m0, id, value.deep_view());
        match find_elem(&self.elements, id) {
            Ok(p) => {
                self.elements[p] = (id, value);
                proof {
                    assert(self.elements.deep_view() =~= m2.elements);
                    assert(self.deep_view() =~~= m2);
                }
            },
            Err(p) => {
                self.elements.insert(p, (id, value));
                proof {
                    m0.elements.insert_ensures(p as int, (id, value.deep_view()));
                    assert(self.elements.deep_view() =~= m2.elements);
                    assert(self.deep_view() =~~= m2);
                }
            },
        }
        response.push(StorageResponse::Updated);
        proof {
            assert(response.deep_view() =~= old(response).deep_view() + rs);
        }
    }

    /// Reads an element definition, or answers `NotFound`.
    fn do_read_element(&self, id: i64, response: &mut Vec<StorageResponse>)
        requires
            self.inv(),
        ensures
            ({
                let (m2, rs) = step_read_element(self.deep_view(), id);
                final(response).deep_view() == old(response).deep_view() + rs
            }),
    {
        let ghost (m2, rs) = step_read_element(self.deep_view(), id);
        match find_elem(&self.elements, id) {
            Ok(p) => {
                let blob = copy_bytes(&self.elements[p].1);
                proof {
                    assert(self.deep_view().elements[p as int]
                        == self.elements@[p as int].deep_view());
                }
                response.push(StorageResponse::Element(id, blob));
            },
            Err(_) => {
                response.push(StorageResponse::NotFound);
            },
        }
        proof {
            assert(response.deep_view() =~= old(response).deep_view() + rs);
        }
    }

    /// Removes an element definition if present; always acknowledged.
    fn do_delete_element(&mut self, id: i64, response: &mut Vec<StorageResponse>)
        requires
            old(self).inv(),
        ensures
            ({
                let (m2, rs) = step_delete_element(old(self).deep_view(), id);
                final(self).deep_view() == m2 && final(response).deep_view() == old(
                    response,
                ).deep_view() + rs
            }),
    {
        let ghost m0 = self.deep_view();
        let ghost (m2, rs) = step_delete_element(m0, id);
        match find_elem(&self.elements, id) {
            Ok(p) => {
                self.elements.remove(p);
                proof {
                    m0.elements.remove_ensures(p as int);
                    assert(self.elements.deep_view() =~= m2.elements);
                    assert(self.deep_view() =~~= m2);
                }
            },
            Err(_) => {
                proof {
                    assert(self.deep_view() =~~= m2);
                }
            },
        }
        response.push(StorageResponse::Updated);
        proof {
            assert(response.deep_view() =~= old(response).deep_view() + rs);
        }
    }
}


impl InMemoryStorageCore {
    /// Creates or overwrites a layer; always acknowledged.
    fn do_add_layer(&mut self, id: u64, props: Vec<u8>, response: &mut Vec<StorageResponse>)
        requires
            old(self).inv(),
        ensures
            ({
                let (m2, rs) = step_add_layer(old(self).deep_view(), id, props.deep_view());
                final(self).deep_view() == m2 && final(response).deep_view() == old(
                    response,
                ).deep_view() + rs
            }),
    {
        let ghost m0 = self.deep_view();
        let ghost (m2, rs) = step_add_layer(m0, id, props.deep_view());
        let fresh = InMemoryLayerStorage { id, properties: props, keyframes: Vec::new(), cache: Vec::new() };
        proof {
            assert(fresh.deep_view() =~~= LayerModel {
                id,
                properties: fresh.properties.deep_view(),
                keyframes: Seq::empty(),
                cache: Seq::empty(),
            });
        }
        match find_layer(&self.layers, id) {
            Ok(p) => {
                self.layers[p] = fresh;
                proof {
                    assert(self.layers.deep_view() =~~= m2.layers);
                    assert(self.deep_view() =~~= m2);
                }
            },
            Err(p) => {
                self.layers.insert(p, fresh);
                proof {
                    m0.layers.insert_ensures(p as int, fresh.deep_view());
                    assert(self.layers.deep_view() =~~= m2.layers);
                    assert(self.deep_view() =~~= m2);
                }
            },
        }
        response.push(StorageResponse::Updated);
        proof {
            assert(response.deep_view() =~= old(response).deep_view() + rs);
        }
    }

    /// Removes a layer and the attachment records of its keyframes, or
    /// answers `NotFound`.
    fn do_delete_layer(&mut self, id: u64, response: &mut Vec<StorageResponse>)
        requires
            old(self).inv(),
        ensures
            ({
                let (m2, rs) = step_delete_layer(old(self).deep_view(), id);
                final(self).deep_view() == m2 && final(response).deep_view() == old(
                    response,
                ).deep_view() + rs
            }),
    {
        let ghost m0 = self.deep_view();
        let ghost (m2, rs) = step_delete_layer(m0, id);
        match find_layer(&self.layers, id) {
            Ok(p) => {
                self.layers.remove(p);
                let ghost atts0 = m0.attachments;
                let mut table: Vec<(i64, Vec<ElementAttachment>)> = Vec::new();
                let mut k: usize = 0;
                while k < self.element_attachments.len()
                    invariant
                        k <= self.element_attachments.len(),
                        atts0 == self.element_attachments.deep_view(),
                        atts0.len() == self.element_attachments.len(),
                        table.deep_view() == strip_layer_table(atts0.take(k as int), id),
                    decreases self.element_attachments.len() - k,
                {
                    proof {
                        assert(atts0.take(k + 1).drop_last() =~= atts0.take(k as int));
                        assert(atts0.take(k + 1).last() == atts0[k as int]);
                        assert(atts0[k as int] == self.element_attachments@[k as int].deep_view());
                    }
                    let filtered = strip_layer_from_list(&self.element_attachments[k].1, id);
                    table.push((self.element_attachments[k].0, filtered));
                    proof {
                        assert(table.deep_view() =~= strip_layer_table(atts0.take(k + 1), id));
                    }
                    k = k + 1;
                }
                self.element_attachments = table;
                response.push(StorageResponse::Updated);
                proof {
                    assert(atts0.take(atts0.len() as int) =~= atts0);
                    m0.layers.remove_ensures(p as int);
                    assert(self.layers.deep_view() =~~= m2.layers);
                    assert(self.deep_view() =~~= m2);
                    assert(response.deep_view() =~= old(response).deep_view() + rs);
                }
            },
            Err(_) => {
                response.push(StorageResponse::NotFound);
                proof {
                    assert(self.deep_view() =~~= m2);
                    assert(response.deep_view() =~= old(response).deep_view() + rs);
                }
            },
        }
    }

    /// Answers the id and properties of every layer, ascending by id.
    fn do_read_layers(&self, response: &mut Vec<StorageResponse>)
        ensures
            ({
                let (m2, rs) = step_read_layers(self.deep_view());
                final(response).deep_view() == old(response).deep_view() + rs
            }),
    {
        let ghost m0 = self.deep_view();
        let ghost (m2, rs) = step_read_layers(m0);
        let ghost base = response.deep_view();
        let mut i: usize = 0;
        while i < self.layers.len()
            invariant
                i <= self.layers.len(),
                m0 == self.deep_view(),
                rs == step_read_layers(m0).1,
                rs.len() == self.layers.len(),
                response.deep_view() == base + rs.take(i as int),
            decreases self.layers.len() - i,
        {
            let props = copy_bytes(&self.layers[i].properties);
            proof {
                assert(m0.layers[i as int] == self.layers@[i as int].deep_view());
                assert(rs[i as int] == ResponseModel::LayerProperties(
                    m0.layers[i as int].id,
                    m0.layers[i as int].properties,
                ));
            }
            response.push(StorageResponse::LayerProperties(self.layers[i].id, props));
            proof {
                assert(rs.take(i + 1) =~= rs.take(i as int).push(rs[i as int]));
                assert(response.deep_view() =~= (base + rs.take(i as int)).push(rs[i as int]));
                assert(base + rs.take(i + 1) =~= (base + rs.take(i as int)).push(rs[i as int]));
                assert(response.deep_view() == base + rs.take(i + 1));
            }
            i = i + 1;
        }
        proof {
            assert(rs.take(rs.len() as int) =~= rs);
        }
    }

    /// Overwrites the properties of an existing layer, or answers `NotFound`.
    fn do_write_layer_properties(
        &mut self,
        id: u64,
        props: Vec<u8>,
        response: &mut Vec<StorageResponse>,
    )
        requires
            old(self).inv(),
        ensures
            ({
                let (m2, rs) = step_write_layer_properties(
                    old(self).deep_view(),
                    id,
                    props.deep_view(),
                );
                final(self).deep_view() == m2 && final(response).deep_view() == old(
                    response,
                ).deep_view() + rs
            }),
    {
        let ghost m0 = self.deep_view();
        let ghost (m2, rs) = step_write_layer_properties(m0, id, props.deep_view());
        match find_layer(&self.layers, id) {
            Ok(p) => {
                let mut layer = self.layers.remove(p);
                layer.properties = props;
                self.layers.insert(p, layer);
                response.push(StorageResponse::Updated);
                proof {
                    assert(self.layers.deep_view() =~~= m2.layers);
                    assert(self.deep_view() =~~= m2);
                    assert(response.deep_view() =~= old(response).deep_view() + rs);
                }
            },
            Err(_) => {
                response.push(StorageResponse::NotFound);
                proof {
                    assert(self.deep_view() =~~= m2);
                    assert(response.deep_view() =~= old(response).deep_view() + rs);
                }
            },
        }
    }

    /// Reads the properties of a layer, or answers `NotFound`.
    fn do_read_layer_properties(&self, id: u64, response: &mut Vec<StorageResponse>)
        requires
            self.inv(),
        ensures
            ({
                let (m2, rs) = step_read_layer_properties(self.deep_view(), id);
                final(response).deep_view() == old(response).deep_view() + rs
            }),
    {
        let ghost (m2, rs) = step_read_layer_properties(self.deep_view(), id);
        match find_layer(&self.layers, id) {
            Ok(p) => {
                let props = copy_bytes(&self.layers[p].properties);
                proof {
                    assert(self.deep_view().layers[p as int]
                        == self.layers@[p as int].deep_view());
                }
                response.push(StorageResponse::LayerProperties(id, props));
            },
            Err(_) => {
                response.push(StorageResponse::NotFound);
            },
        }
        proof {
            assert(response.deep_view() =~= old(response).deep_view() + rs);
        }
    }
}

impl InMemoryStorageCore {
    /// Inserts a keyframe in time order, refusing to replace an existing
    /// one; answers `NotFound` for a missing layer.
    fn do_add_key_frame(&mut self, layer_id: u64, when: u64, response: &mut Vec<StorageResponse>)
        requires
            old(self).inv(),
        ensures
            ({
                let (m2, rs) = step_add_key_frame(old(self).deep_view(), layer_id, when);
                final(self).deep_view() == m2 && final(response).deep_view() == old(
                    response,
                ).deep_view() + rs
            }),
    {
        let ghost m0 = self.deep_view();
        let ghost (m2, rs) = step_add_key_frame(m0, layer_id, when);
        match find_layer(&self.layers, layer_id) {
            Ok(p) => {
                proof {
                    assert(m0.layers[p as int] == self.layers@[p as int].deep_view());
                    assert(m0.layers[p as int].wf());
                }
                match find_kf(&self.layers[p].keyframes, when) {
                    Ok(_) => {
                        response.push(StorageResponse::NotReplacingExisting);
                        proof {
                            assert(self.deep_view() =~~= m2);
                            assert(response.deep_view() =~= old(response).deep_view() + rs);
                        }
                    },
                    Err(q) => {
                        let mut layer = self.layers.remove(p);
                        let fresh = InMemoryKeyFrameStorage { when, attached_elements: Vec::new() };
                        proof {
                            assert(fresh.deep_view() =~~= KeyFrameModel {
                                when,
                                attached: Seq::empty(),
                            });
                        }
                        let ghost kfs0 = layer.keyframes.deep_view();
                        layer.keyframes.insert(q, fresh);
                        self.layers.insert(p, layer);
                        response.push(StorageResponse::Updated);
                        proof {
                            kfs0.insert_ensures(q as int, fresh.deep_view());
                            assert(self.layers.deep_view() =~~= m2.layers);
                            assert(self.deep_view() =~~= m2);
                            assert(response.deep_view() =~= old(response).deep_view() + rs);
                        }
                    },
                }
            },
            Err(_) => {
                response.push(StorageResponse::NotFound);
                proof {
                    assert(self.deep_view() =~~= m2);
                    assert(response.deep_view() =~= old(response).deep_view() + rs);
                }
            },
        }
    }

    /// Removes the keyframe at exactly the given time, with its attachment
    /// records; answers `NotFound` for a missing layer or keyframe.
    fn do_delete_key_frame(&mut self, layer_id: u64, when: u64, response: &mut Vec<StorageResponse>)
        requires
            old(self).inv(),
        ensures
            ({
                let (m2, rs) = step_delete_key_frame(old(self).deep_view(), layer_id, when);
                final(self).deep_view() == m2 && final(response).deep_view() == old(
                    response,
                ).deep_view() + rs
            }),
    {
        let ghost m0 = self.deep_view();
        let ghost (m2, rs) = step_delete_key_frame(m0, layer_id, when);
        match find_layer(&self.layers, layer_id) {
            Ok(p) => {
                proof {
                    assert(m0.layers[p as int] == self.layers@[p as int].deep_view());
                    assert(m0.layers[p as int].wf());
                }
                match find_kf(&self.layers[p].keyframes, when) {
                    Ok(k) => {
                        let mut layer = self.layers.remove(p);
                        let ghost kfs0 = layer.keyframes.deep_view();
                        layer.keyframes.remove(k);
                        self.layers.insert(p, layer);
                        let ghost atts0 = m0.attachments;
                        let mut table: Vec<(i64, Vec<ElementAttachment>)> = Vec::new();
                        let mut w: usize = 0;
                        while w < self.element_attachments.len()
                            invariant
                                w <= self.element_attachments.len(),
                                atts0 == self.element_attachments.deep_view(),
                                atts0.len() == self.element_attachments.len(),
                                table.deep_view() == strip_kf_table(
                                    atts0.take(w as int),
                                    layer_id,
                                    when,
                                ),
                            decreases self.element_attachments.len() - w,
                        {
                            proof {
                                assert(atts0.take(w + 1).drop_last() =~= atts0.take(w as int));
                                assert(atts0.take(w + 1).last() == atts0[w as int]);
                                assert(atts0[w as int]
                                    == self.element_attachments@[w as int].deep_view());
                            }
                            let filtered = strip_kf_from_list(
                                &self.element_attachments[w].1,
                                layer_id,
                                when,
                            );
                            table.push((self.element_attachments[w].0, filtered));
                            proof {
                                assert(table.deep_view() =~= strip_kf_table(
                                    atts0.take(w + 1),
                                    layer_id,
                                    when,
                                ));
                            }
                            w = w + 1;
                        }
                        self.element_attachments = table;
                        response.push(StorageResponse::Updated);
                        proof {
                            assert(atts0.take(atts0.len() as int) =~= atts0);
                            kfs0.remove_ensures(k as int);
                            assert(self.layers.deep_view() =~~= m2.layers);
                            assert(self.deep_view() =~~= m2);
                            assert(response.deep_view() =~= old(response).deep_view() + rs);
                        }
                    },
                    Err(_) => {
                        response.push(StorageResponse::NotFound);
                        proof {
                            assert(self.deep_view() =~~= m2);
                            assert(response.deep_view() =~= old(response).deep_view() + rs);
                        }
                    },
                }
            },
            Err(_) => {
                response.push(StorageResponse::NotFound);
                proof {
                    assert(self.deep_view() =~~= m2);
                    assert(response.deep_view() =~= old(response).deep_view() + rs);
                }
            },
        }
    }

    /// Answers the keyframes spanning `start..end`: the one covering
    /// `start`, then consecutive keyframes until one starts at or after
    /// `end`, each paired with the next start time or the unbounded end.
    fn do_read_key_frames(
        &self,
        layer_id: u64,
        start: u64,
        end: u64,
        response: &mut Vec<StorageResponse>,
    )
        requires
            self.inv(),
        ensures
            ({
                let (m2, rs) = step_read_key_frames(self.deep_view(), layer_id, start, end);
                final(response).deep_view() == old(response).deep_view() + rs
            }),
    {
        let ghost m0 = self.deep_view();
        let ghost (m2, rs) = step_read_key_frames(m0, layer_id, start, end);
        let ghost base = response.deep_view();
        match find_layer(&self.layers, layer_id) {
            Ok(p) => {
                proof {
                    assert(m0.layers[p as int] == self.layers@[p as int].deep_view());
                    assert(m0.layers[p as int].wf());
                }
                let ghost kdv = m0.layers[p as int].keyframes;
                let ghost hi = kf_ins(kdv, end);
                proof {
                    lemma_kf_ins_props(kdv, end);
                }
                let lo = match find_kf(&self.layers[p].keyframes, start) {
                    Ok(i) => i,
                    Err(q) => {
                        if q > 0 {
                            q - 1
                        } else {
                            0
                        }
                    },
                };
                proof {
                    assert(lo == kf_range_start(kdv, start));
                    assert(rs.len() == if kdv.len() > 0 && lo < hi {
                        hi - lo
                    } else {
                        0
                    });
                }
                let n = self.layers[p].keyframes.len();
                let mut idx = lo;
                while idx < n && self.layers[p].keyframes[idx].when < end
                    invariant
                        lo <= idx <= n,
                        self.inv(),
                        m0 == self.deep_view(),
                        p < self.layers.len(),
                        has_layer(m0.layers, layer_id),
                        p == layer_pos(m0.layers, layer_id),
                        kdv == m0.layers[p as int].keyframes,
                        kdv == self.layers@[p as int].deep_view().keyframes,
                        lo == kf_range_start(kdv, start),
                        n == kdv.len(),
                        lo < kdv.len() || (lo == 0 && kdv.len() == 0),
                        hi == kf_ins(kdv, end),
                        forall|i: int| 0 <= i < hi ==> (#[trigger] kdv[i]).when < end,
                        forall|i: int| hi <= i < kdv.len() ==> end <= (#[trigger] kdv[i]).when,
                        rs == step_read_key_frames(m0, layer_id, start, end).1,
                        rs.len() == if kdv.len() > 0 && lo < hi {
                            hi - lo
                        } else {
                            0
                        },
                        lo < hi ==> idx <= hi,
                        lo >= hi ==> idx == lo,
                        response.deep_view() == base + rs.take(idx - lo),
                    decreases n - idx,
                {
                    proof {
                        assert(kdv[idx as int].when < end);
                        assert(idx < hi);
                        assert(rs[idx - lo] == ResponseModel::KeyFrame(
                            kdv[lo + (idx - lo)].when,
                            kf_end(kdv, lo + (idx - lo)),
                        ));
                        assert(kdv[idx as int] == self.layers@[p as int].keyframes@[idx as int].deep_view());
                    }
                    let when_start = self.layers[p].keyframes[idx].when;
                    let when_end = if idx + 1 < n {
                        proof {
                            assert(kdv[idx + 1] == self.layers@[p as int].keyframes@[idx + 1].deep_view());
                        }
                        self.layers[p].keyframes[idx + 1].when
                    } else {
                        crate::protocol::TIME_UNBOUNDED
                    };
                    response.push(StorageResponse::KeyFrame(when_start, when_end));
                    proof {
                        assert(rs.take(idx + 1 - lo) =~= rs.take(idx - lo).push(rs[idx - lo]));
                        assert(response.deep_view() =~= (base + rs.take(idx - lo)).push(
                            rs[idx - lo],
                        ));
                        assert(base + rs.take(idx + 1 - lo) =~= (base + rs.take(idx - lo)).push(
                            rs[idx - lo],
                        ));
                        assert(response.deep_view() == base + rs.take(idx + 1 - lo));
                    }
                    idx = idx + 1;
                }
                proof {
                    if idx < n {
                        assert(kdv[idx as int] == self.layers@[p as int].keyframes@[idx as int].deep_view());
                        assert(end <= kdv[idx as int].when);
                        assert(idx >= hi);
                    }
                    if kdv.len() > 0 && lo < hi {
                        assert(idx == hi);
                        assert(rs.take(idx - lo) =~= rs);
                    } else {
                        assert(idx == lo);
                        assert(rs.take(0) =~= rs);
                    }
                    assert(response.deep_view() =~= base + rs);
                }
            },
            Err(_) => {
                response.push(StorageResponse::NotFound);
                proof {
                    assert(response.deep_view() =~= base + rs);
                }
            },
        }
    }
}

impl InMemoryStorageCore {
    /// Attaches an element to the keyframe covering the given time,
    /// recording it on the keyframe and in the attachment table; answers
    /// `NotFound` for a missing layer or uncovered time.
    fn do_attach_element(
        &mut self,
        layer_id: u64,
        element_id: i64,
        when: u64,
        response: &mut Vec<StorageResponse>,
    )
        requires
            old(self).inv(),
        ensures
            ({
                let (m2, rs) = step_attach_element(old(self).deep_view(), layer_id, element_id, when);
                final(self).deep_view() == m2 && final(response).deep_view() == old(
                    response,
                ).deep_view() + rs
            }),
    {
        let ghost m0 = self.deep_view();
        let ghost (m2, rs) = step_attach_element(m0, layer_id, element_id, when);
        match find_layer(&self.layers, layer_id) {
            Ok(p) => {
                proof {
                    assert(m0.layers[p as int] == self.layers@[p as int].deep_view());
                    assert(m0.layers[p as int].wf());
                }
                let ghost kdv = m0.layers[p as int].keyframes;
                let cover = match find_kf(&self.layers[p].keyframes, when) {
                    Ok(k) => Some(k),
                    Err(q) => {
                        if q > 0 {
                            Some(q - 1)
                        } else {
                            None
                        }
                    },
                };
                match cover {
                    Some(k) => {
                        proof {
                            assert(kf_covering(kdv, when) == Some(k as int));
                            if !has_kf(kdv, when) {
                                lemma_kf_ins_props(kdv, when);
                            }
                            assert(0 <= k < kdv.len());
                            assert(kdv[k as int].wf());
                        }
                        let mut layer = self.layers.remove(p);
                        let mut kf = layer.keyframes.remove(k);
                        let kf_when = kf.when;
                        proof {
                            assert(kf.deep_view() == kdv[k as int]);
                        }
                        match find_attached(&kf.attached_elements, element_id) {
                            Some(a) => {
                                kf.attached_elements[a] = (element_id, when);
                                proof {
                                    assert(kf.attached_elements.deep_view() =~= attach_to_list(
                                        kdv[k as int].attached,
                                        element_id,
                                        when,
                                    ));
                                }
                            },
                            None => {
                                kf.attached_elements.push((element_id, when));
                                proof {
                                    assert(kf.attached_elements.deep_view() =~= attach_to_list(
                                        kdv[k as int].attached,
                                        element_id,
                                        when,
                                    ));
                                }
                            },
                        }
                        layer.keyframes.insert(k, kf);
                        self.layers.insert(p, layer);
                        let record = ElementAttachment { layer_id, keyframe_time: kf_when };
                        proof {
                            assert(record.deep_view() == AttachmentModel {
                                layer_id,
                                keyframe_time: kdv[k as int].when,
                            });
                            assert(forall|i: int, j: int|
                                0 <= i < j < m0.attachments.len() ==> m0.attachments[i].0
                                    != m0.attachments[j].0);
                            assert(self.element_attachments.deep_view() == m0.attachments);
                        }
                        match find_att(&self.element_attachments, element_id) {
                            Some(a) => {
                                let mut entry = self.element_attachments.remove(a);
                                entry.1.push(record);
                                self.element_attachments.insert(a, entry);
                                proof {
                                    assert(self.element_attachments.deep_view() =~~= m2.attachments);
                                }
                            },
                            None => {
                                let mut fresh_list: Vec<ElementAttachment> = Vec::new();
                                fresh_list.push(record);
                                self.element_attachments.push((element_id, fresh_list));
                                proof {
                                    assert(fresh_list.deep_view() =~= seq![record.deep_view()]);
                                    assert(self.element_attachments.deep_view() =~~= m2.attachments);
                                }
                            },
                        }
                        response.push(StorageResponse::Updated);
                        proof {
                            assert(self.layers.deep_view() =~~= m2.layers);
                            assert(self.deep_view() =~~= m2);
                            assert(response.deep_view() =~= old(response).deep_view() + rs);
                        }
                    },
                    None => {
                        proof {
                            assert(kf_covering(kdv, when) is None);
                        }
                        response.push(StorageResponse::NotFound);
                        proof {
                            assert(self.deep_view() =~~= m2);
                            assert(response.deep_view() =~= old(response).deep_view() + rs);
                        }
                    },
                }
            },
            Err(_) => {
                response.push(StorageResponse::NotFound);
                proof {
                    assert(self.deep_view() =~~= m2);
                    assert(response.deep_view() =~= old(response).deep_view() + rs);
                }
            },
        }
    }

    /// Detaches an element from every keyframe of every layer and drops its
    /// attachment table entry; always acknowledged.
    fn do_detach_element(&mut self, element_id: i64, response: &mut Vec<StorageResponse>)
        requires
            old(self).inv(),
        ensures
            ({
                let (m2, rs) = step_detach_element(old(self).deep_view(), element_id);
                final(self).deep_view() == m2 && final(response).deep_view() == old(
                    response,
                ).deep_view() + rs
            }),
    {
        let ghost m0 = self.deep_view();
        let ghost (m2, rs) = step_detach_element(m0, element_id);
        let ghost l0 = m0.layers;
        let mut new_layers: Vec<InMemoryLayerStorage> = Vec::new();
        let mut p: usize = 0;
        while p < self.layers.len()
            invariant
                p <= self.layers.len(),
                m0 == self.deep_view(),
                l0 == self.layers.deep_view(),
                l0.len() == self.layers.len(),
                new_layers.deep_view() == detach_from_layers(l0.take(p as int), element_id),
            decreases self.layers.len() - p,
        {
            proof {
                assert(l0.take(p + 1).drop_last() =~= l0.take(p as int));
                assert(l0.take(p + 1).last() == l0[p as int]);
                assert(l0[p as int] == self.layers@[p as int].deep_view());
            }
            let rebuilt = InMemoryLayerStorage {
                id: self.layers[p].id,
                properties: copy_bytes(&self.layers[p].properties),
                keyframes: detach_kfs_vec(&self.layers[p].keyframes, element_id),
                cache: copy_cache(&self.layers[p].cache),
            };
            proof {
                assert(rebuilt.deep_view() =~~= LayerModel {
                    id: l0[p as int].id,
                    properties: l0[p as int].properties,
                    keyframes: detach_from_kfs(l0[p as int].keyframes, element_id),
                    cache: l0[p as int].cache,
                });
            }
            new_layers.push(rebuilt);
            proof {
                assert(new_layers.deep_view() =~= detach_from_layers(l0.take(p + 1), element_id));
            }
            p = p + 1;
        }
        self.layers = new_layers;
        proof {
            assert(l0.take(l0.len() as int) =~= l0);
            assert(self.element_attachments.deep_view() == m0.attachments);
            assert(forall|i: int, j: int|
                0 <= i < j < m0.attachments.len() ==> m0.attachments[i].0 != m0.attachments[j].0);
        }
        match find_att(&self.element_attachments, element_id) {
            Some(a) => {
                self.element_attachments.remove(a);
                proof {
                    assert(self.element_attachments.deep_view() =~~= m2.attachments);
                }
            },
            None => {},
        }
        response.push(StorageResponse::Updated);
        proof {
            assert(self.deep_view() =~~= m2);
            assert(response.deep_view() =~= old(response).deep_view() + rs);
        }
    }

    /// Answers every (layer, keyframe time) pair recorded for an element;
    /// an element with no records gets an empty list.
    fn do_read_element_attachments(&self, element_id: i64, response: &mut Vec<StorageResponse>)
        requires
            self.inv(),
        ensures
            ({
                let (m2, rs) = step_read_element_attachments(self.deep_view(), element_id);
                final(response).deep_view() == old(response).deep_view() + rs
            }),
    {
        let ghost m0 = self.deep_view();
        let ghost (m2, rs) = step_read_element_attachments(m0, element_id);
        let mut pairs: Vec<(u64, u64)> = Vec::new();
        match find_att(&self.element_attachments, element_id) {
            Some(a) => {
                let ghost list0 = m0.attachments[a as int].1;
                proof {
                    assert(m0.attachments[a as int]
                        == self.element_attachments@[a as int].deep_view());
                }
                let n = self.element_attachments[a].1.len();
                let mut i: usize = 0;
                while i < n
                    invariant
                        i <= n,
                        self.inv(),
                        m0 == self.deep_view(),
                        a < self.element_attachments.len(),
                        list0 == m0.attachments[a as int].1,
                        list0 == self.element_attachments@[a as int].deep_view().1,
                        n == list0.len(),
                        n == self.element_attachments@[a as int].1.len(),
                        pairs.deep_view() == att_pairs(list0.take(i as int)),
                    decreases n - i,
                {
                    proof {
                        assert(list0.take(i + 1).drop_last() =~= list0.take(i as int));
                        assert(list0.take(i + 1).last() == list0[i as int]);
                        assert(list0[i as int]
                            == self.element_attachments@[a as int].1@[i as int].deep_view());
                    }
                    let item = (
                        self.element_attachments[a].1[i].layer_id,
                        self.element_attachments[a].1[i].keyframe_time,
                    );
                    pairs.push(item);
                    proof {
                        assert(pairs.deep_view() =~= att_pairs(list0.take(i + 1)));
                    }
                    i = i + 1;
                }
                proof {
                    assert(list0.take(list0.len() as int) =~= list0);
                }
            },
            None => {
                proof {
                    assert(pairs.deep_view() =~= Seq::<(u64, u64)>::empty());
                }
            },
        }
        response.push(StorageResponse::ElementAttachments(element_id, pairs));
        proof {
            assert(response.deep_view() =~= old(response).deep_view() + rs);
        }
    }

    /// Answers the element ids attached at an exact keyframe time, in
    /// stored order; `NotFound` for a missing layer or keyframe.
    fn do_read_elements_for_key_frame(
        &self,
        layer_id: u64,
        when: u64,
        response: &mut Vec<StorageResponse>,
    )
        requires
            self.inv(),
        ensures
            ({
                let (m2, rs) = step_read_elements_for_key_frame(self.deep_view(), layer_id, when);
                final(response).deep_view() == old(response).deep_view() + rs
            }),
    {
        let ghost m0 = self.deep_view();
        let ghost (m2, rs) = step_read_elements_for_key_frame(m0, layer_id, when);
        match find_layer(&self.layers, layer_id) {
            Ok(p) => {
                proof {
                    assert(m0.layers[p as int] == self.layers@[p as int].deep_view());
                    assert(m0.layers[p as int].wf());
                }
                match find_kf(&self.layers[p].keyframes, when) {
                    Ok(k) => {
                        let ghost list0 = m0.layers[p as int].keyframes[k as int].attached;
                        proof {
                            assert(m0.layers[p as int].keyframes[k as int]
                                == self.layers@[p as int].keyframes@[k as int].deep_view());
                        }
                        let mut ids: Vec<i64> = Vec::new();
                        let n = self.layers[p].keyframes[k].attached_elements.len();
                        let mut i: usize = 0;
                        while i < n
                            invariant
                                i <= n,
                                self.inv(),
                                m0 == self.deep_view(),
                                p < self.layers.len(),
                                k < self.layers@[p as int].keyframes.len(),
                                list0 == self.layers@[p as int].keyframes@[k as int].deep_view().attached,
                                n == list0.len(),
                                n == self.layers@[p as int].keyframes@[k as int].attached_elements.len(),
                                ids.deep_view() == attached_ids(list0.take(i as int)),
                            decreases n - i,
                        {
                            proof {
                                assert(list0.take(i + 1).drop_last() =~= list0.take(i as int));
                                assert(list0.take(i + 1).last() == list0[i as int]);
                                assert(list0[i as int] == self.layers@[p as int].keyframes@[
                                    k as int].attached_elements@[i as int]);
                            }
                            let id = self.layers[p].keyframes[k].attached_elements[i].0;
                            ids.push(id);
                            proof {
                                assert(ids.deep_view() =~= attached_ids(list0.take(i + 1)));
                            }
                            i = i + 1;
                        }
                        response.push(StorageResponse::ElementsForKeyFrame(ids));
                        proof {
                            assert(list0.take(list0.len() as int) =~= list0);
                            assert(response.deep_view() =~= old(response).deep_view() + rs);
                        }
                    },
                    Err(_) => {
                        response.push(StorageResponse::NotFound);
                        proof {
                            assert(response.deep_view() =~= old(response).deep_view() + rs);
                        }
                    },
                }
            },
            Err(_) => {
                response.push(StorageResponse::NotFound);
                proof {
                    assert(response.deep_view() =~= old(response).deep_view() + rs);
                }
            },
        }
    }
}

impl InMemoryStorageCore {
    /// Stores a cached rendering for (layer, time, key), overwriting any
    /// previous entry; answers `NotFound` for a missing layer.
    fn do_write_layer_cache(
        &mut self,
        layer_id: u64,
        when: u64,
        key: Vec<u8>,
        value: Vec<u8>,
        response: &mut Vec<StorageResponse>,
    )
        requires
            old(self).inv(),
        ensures
            ({
                let (m2, rs) = step_write_layer_cache(
                    old(self).deep_view(),
                    layer_id,
                    when,
                    key.deep_view(),
                    value.deep_view(),
                );
                final(self).deep_view() == m2 && final(response).deep_view() == old(
                    response,
                ).deep_view() + rs
            }),
    {
        let ghost m0 = self.deep_view();
        let ghost (m2, rs) = step_write_layer_cache(m0, layer_id, when, key.deep_view(), value.deep_view());
        match find_layer(&self.layers, layer_id) {
            Ok(p) => {
                proof {
                    assert(m0.layers[p as int] == self.layers@[p as int].deep_view());
                    assert(m0.layers[p as int].wf());
                }
                let mut layer = self.layers.remove(p);
                let ghost cache0 = layer.cache.deep_view();
                match find_cache(&layer.cache, when, &key) {
                    Some(q) => {
                        layer.cache[q] = CacheEntry { when, key, value };
                        proof {
                            assert(layer.cache.deep_view() =~~= cache0.update(
                                q as int,
                                CacheEntryModel {
                                    when,
                                    key: m2.layers[p as int].cache[q as int].key,
                                    value: m2.layers[p as int].cache[q as int].value,
                                },
                            ));
                            assert(layer.cache.deep_view() =~~= m2.layers[p as int].cache);
                        }
                    },
                    None => {
                        layer.cache.push(CacheEntry { when, key, value });
                        proof {
                            assert(layer.cache.deep_view() =~~= m2.layers[p as int].cache);
                        }
                    },
                }
                self.layers.insert(p, layer);
                response.push(StorageResponse::Updated);
                proof {
                    assert(self.layers.deep_view() =~~= m2.layers);
                    assert(self.deep_view() =~~= m2);
                    assert(response.deep_view() =~= old(response).deep_view() + rs);
                }
            },
            Err(_) => {
                response.push(StorageResponse::NotFound);
                proof {
                    assert(self.deep_view() =~~= m2);
                    assert(response.deep_view() =~= old(response).deep_view() + rs);
                }
            },
        }
    }

    /// Reads the cached rendering for (layer, time, key), or answers
    /// `NotFound`.
    fn do_read_layer_cache(
        &self,
        layer_id: u64,
        when: u64,
        key: &Vec<u8>,
        response: &mut Vec<StorageResponse>,
    )
        requires
            self.inv(),
        ensures
            ({
                let (m2, rs) = step_read_layer_cache(self.deep_view(), layer_id, when, key.deep_view());
                final(response).deep_view() == old(response).deep_view() + rs
            }),
    {
        let ghost m0 = self.deep_view();
        let ghost (m2, rs) = step_read_layer_cache(m0, layer_id, when, key.deep_view());
        match find_layer(&self.layers, layer_id) {
            Ok(p) => {
                proof {
                    assert(m0.layers[p as int] == self.layers@[p as int].deep_view());
                    assert(m0.layers[p as int].wf());
                }
                match find_cache(&self.layers[p].cache, when, key) {
                    Some(q) => {
                        let blob = copy_bytes(&self.layers[p].cache[q].value);
                        proof {
                            assert(m0.layers[p as int].cache[q as int]
                                == self.layers@[p as int].cache@[q as int].deep_view());
                        }
                        response.push(StorageResponse::LayerCache(blob));
                    },
                    None => {
                        response.push(StorageResponse::NotFound);
                    },
                }
            },
            Err(_) => {
                response.push(StorageResponse::NotFound);
            },
        }
        proof {
            assert(response.deep_view() =~= old(response).deep_view() + rs);
        }
    }

    /// Drops the cached rendering for (layer, time, key); acknowledged
    /// whenever the layer exists.
    fn do_delete_layer_cache(
        &mut self,
        layer_id: u64,
        when: u64,
        key: &Vec<u8>,
        response: &mut Vec<StorageResponse>,
    )
        requires
            old(self).inv(),
        ensures
            ({
                let (m2, rs) = step_delete_layer_cache(
                    old(self).deep_view(),
                    layer_id,
                    when,
                    key.deep_view(),
                );
                final(self).deep_view() == m2 && final(response).deep_view() == old(
                    response,
                ).deep_view() + rs
            }),
    {
        let ghost m0 = self.deep_view();
        let ghost (m2, rs) = step_delete_layer_cache(m0, layer_id, when, key.deep_view());
        match find_layer(&self.layers, layer_id) {
            Ok(p) => {
                proof {
                    assert(m0.layers[p as int] == self.layers@[p as int].deep_view());
                    assert(m0.layers[p as int].wf());
                }
                let mut layer = self.layers.remove(p);
                let ghost cache0 = layer.cache.deep_view();
                match find_cache(&layer.cache, when, key) {
                    Some(q) => {
                        layer.cache.remove(q);
                        proof {
                            cache0.remove_ensures(q as int);
                            assert(layer.cache.deep_view() =~~= m2.layers[p as int].cache);
                        }
                    },
                    None => {
                        proof {
                            assert(layer.cache.deep_view() =~~= m2.layers[p as int].cache);
                        }
                    },
                }
                self.layers.insert(p, layer);
                response.push(StorageResponse::Updated);
                proof {
                    assert(self.layers.deep_view() =~~= m2.layers);
                    assert(self.deep_view() =~~= m2);
                    assert(response.deep_view() =~= old(response).deep_view() + rs);
                }
            },
            Err(_) => {
                response.push(StorageResponse::NotFound);
                proof {
                    assert(self.deep_view() =~~= m2);
                    assert(response.deep_view() =~= old(response).deep_view() + rs);
                }
            },
        }
    }

    /// Applies one command against the store, appending its responses.
    fn run_command(&mut self, command: StorageCommand, response: &mut Vec<StorageResponse>)
        requires
            old(self).inv(),
            command_valid(old(self).deep_view(), command.deep_view()),
        ensures
            final(self).inv(),
            ({
                let (m2, rs) = apply_command(old(self).deep_view(), command.deep_view());
                final(self).deep_view() == m2 && final(response).deep_view() == old(
                    response,
                ).deep_view() + rs
            }),
    {
        proof {
            lemma_apply_command_wf(self.deep_view(), command.deep_view());
        }
        match command {
            StorageCommand::WriteAnimationProperties(props) => {
                self.do_write_animation_properties(props, response);
            },
            StorageCommand::ReadAnimationProperties => {
                self.do_read_animation_properties(response);
            },
            StorageCommand::WriteEdit(edit) => {
                self.do_write_edit(edit, response);
            },
            StorageCommand::ReadHighestUnusedElementId => {
                self.do_read_highest_unused(response);
            },
            StorageCommand::ReadEditLogLength => {
                self.do_read_edit_log_length(response);
            },
            StorageCommand::ReadEdits(start, end) => {
                self.do_read_edits(start, end, response);
            },
            StorageCommand::WriteElement(id, value) => {
                self.do_write_element(id, value, response);
            },
            StorageCommand::ReadElement(id) => {
                self.do_read_element(id, response);
            },
            StorageCommand::DeleteElement(id) => {
                self.do_delete_element(id, response);
            },
            StorageCommand::AddLayer(id, props) => {
                self.do_add_layer(id, props, response);
            },
            StorageCommand::DeleteLayer(id) => {
                self.do_delete_layer(id, response);
            },
            StorageCommand::ReadLayers => {
                self.do_read_layers(response);
            },
            StorageCommand::WriteLayerProperties(id, props) => {
                self.do_write_layer_properties(id, props, response);
            },
            StorageCommand::ReadLayerProperties(id) => {
                self.do_read_layer_properties(id, response);
            },
            StorageCommand::AddKeyFrame(layer_id, when) => {
                self.do_add_key_frame(layer_id, when, response);
            },
            StorageCommand::DeleteKeyFrame(layer_id, when) => {
                self.do_delete_key_frame(layer_id, when, response);
            },
            StorageCommand::ReadKeyFrames(layer_id, start, end) => {
                self.do_read_key_frames(layer_id, start, end, response);
            },
            StorageCommand::AttachElementToLayer(layer_id, element_id, when) => {
                self.do_attach_element(layer_id, element_id, when, response);
            },
            StorageCommand::DetachElementFromLayer(element_id) => {
                self.do_detach_element(element_id, response);
            },
            StorageCommand::ReadElementAttachments(element_id) => {
                self.do_read_element_attachments(element_id, response);
            },
            StorageCommand::ReadElementsForKeyFrame(layer_id, when) => {
                self.do_read_elements_for_key_frame(layer_id, when, response);
            },
            StorageCommand::WriteLayerCache(layer_id, when, key, value) => {
                self.do_write_layer_cache(layer_id, when, key, value, response);
            },
            StorageCommand::ReadLayerCache(layer_id, when, key) => {
                self.do_read_layer_cache(layer_id, when, &key, response);
            },
            StorageCommand::DeleteLayerCache(layer_id, when, key) => {
                self.do_delete_layer_cache(layer_id, when, &key, response);
            },
        }
    }

    /// Runs a batch of storage commands against this store, in order,
    /// producing the responses of every command: exactly the meaning given
    /// by [`apply_commands`], with the store's invariants preserved.
    pub fn run_commands(&mut self, commands: Vec<StorageCommand>) -> (response: Vec<
        StorageResponse,
    >)
        requires
            old(self).inv(),
            commands_valid(old(self).deep_view(), commands.deep_view()),
        ensures
            final(self).inv(),
            ({
                let (m2, rs) = apply_commands(old(self).deep_view(), commands.deep_view());
                final(self).deep_view() == m2 && response.deep_view() == rs
            }),
    {
        let ghost m0 = self.deep_view();
        let ghost cdv = commands.deep_view();
        let mut commands = commands;
        let mut response: Vec<StorageResponse> = Vec::new();
        let mut i: usize = 0;
        proof {
            assert(cdv.take(0) =~= Seq::<CommandModel>::empty());
            assert(cdv.skip(0) =~= cdv);
            assert(commands.len() == commands@.len());
            assert(cdv.len() == commands@.len());
            assert(response.deep_view() =~= Seq::<ResponseModel>::empty());
        }
        while commands.len() > 0
            invariant
                i + commands.len() == cdv.len(),
                cdv.len() <= usize::MAX,
                self.inv(),
                commands.deep_view() == cdv.skip(i as int),
                (self.deep_view(), response.deep_view()) == apply_commands(m0, cdv.take(i as int)),
                commands_valid(self.deep_view(), cdv.skip(i as int)),
            decreases commands.len(),
        {
            let ghost pre_view = commands.deep_view();
            let command = commands.remove(0);
            proof {
                assert(command.deep_view() == pre_view[0]);
                assert(pre_view[0] == cdv[i as int]);
                assert(commands.deep_view() =~= pre_view.drop_first());
                assert(pre_view.drop_first() =~= cdv.skip(i + 1));
                assert(cdv.skip(i as int).drop_first() =~= cdv.skip(i + 1));
                assert(command_valid(self.deep_view(), cdv[i as int]));
            }
            self.run_command(command, &mut response);
            proof {
                lemma_apply_commands_snoc(m0, cdv.take(i as int), cdv[i as int]);
                assert(cdv.take(i as int).push(cdv[i as int]) =~= cdv.take(i + 1));
                assert((self.deep_view(), response.deep_view()) == apply_commands(
                    m0,
                    cdv.take(i + 1),
                ));
            }
            i = i + 1;
        }
        proof {
            assert(cdv.take(cdv.len() as int) =~= cdv);
        }
        response
    }
}

} // verus!
