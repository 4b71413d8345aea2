//! Laws of the storage protocol, proved over the store model: what holds of
//! every store and every batch, not just of chosen inputs.

use vstd::prelude::*;
use crate::protocol::{CommandModel, ResponseModel};
use crate::store_model::{
    StoreModel, apply_command, apply_commands, has_elem, has_kf, has_layer, elem_ins, elem_pos,
    kf_end, kf_ins, kf_pos, kf_range_start, layer_pos, lemma_apply_command_wf,
    lemma_apply_commands_wf, lemma_elem_ins_props, lemma_kf_ins_props, KeyFrameModel,
};

verus! {

/// The keyframe times of every layer stay strictly ascending and unique
/// under every batch of commands — in particular under any sequence of
/// `AddKeyFrame` commands.
pub proof fn lemma_keyframe_times_strictly_ascending(m: StoreModel, cs: Seq<CommandModel>)
    requires
        m.wf(),
    ensures
        ({
            let m2 = apply_commands(m, cs).0;
            forall|l: int|
                0 <= l < m2.layers.len() ==> (forall|i: int, j: int|
                    0 <= i < j < (#[trigger] m2.layers[l]).keyframes.len()
                        ==> m2.layers[l].keyframes[i].when < m2.layers[l].keyframes[j].when)
        }),
{
    lemma_apply_commands_wf(m, cs);
}

/// Adding a keyframe at a fresh time and then adding it again yields
/// `Updated` and then `NotReplacingExisting`.
pub proof fn lemma_add_key_frame_twice(m: StoreModel, layer_id: u64, t: u64)
    requires
        m.wf(),
        has_layer(m.layers, layer_id),
        !has_kf(m.layers[layer_pos(m.layers, layer_id)].keyframes, t),
    ensures
        apply_commands(
            m,
            seq![CommandModel::AddKeyFrame(layer_id, t), CommandModel::AddKeyFrame(layer_id, t)],
        ).1 == seq![ResponseModel::Updated, ResponseModel::NotReplacingExisting],
{
    let cs = seq![CommandModel::AddKeyFrame(layer_id, t), CommandModel::AddKeyFrame(layer_id, t)];
    let p = layer_pos(m.layers, layer_id);
    let kfs = m.layers[p].keyframes;
    assert(m.layers[p].wf());
    lemma_kf_ins_props(kfs, t);
    let q = kf_ins(kfs, t);
    let fresh = KeyFrameModel { when: t, attached: Seq::empty() };
    kfs.insert_ensures(q, fresh);
    let (m1, rs1) = apply_command(m, cs[0]);
    lemma_apply_command_wf(m, cs[0]);
    assert(rs1 == seq![ResponseModel::Updated]);
    // After the first insert the layer still stands at the same position
    // and now holds a keyframe at `t`.
    assert(m1.layers[p].id == layer_id);
    assert(has_layer(m1.layers, layer_id));
    assert(layer_pos(m1.layers, layer_id) == p) by {
        let w = layer_pos(m1.layers, layer_id);
        assert(m1.layers[w].id == layer_id);
        if w < p {
            assert(m1.layers[w].id < m1.layers[p].id);
        } else if w > p {
            assert(m1.layers[p].id < m1.layers[w].id);
        }
    }
    assert(m1.layers[p].keyframes[q] == fresh);
    assert(has_kf(m1.layers[p].keyframes, t));
    let (m2, rs2) = apply_command(m1, cs[1]);
    assert(rs2 == seq![ResponseModel::NotReplacingExisting]);
    let rest1 = cs.drop_first();
    assert(rest1[0] == cs[1]);
    assert(rest1.drop_first() =~= Seq::<CommandModel>::empty());
    assert(apply_commands(m2, rest1.drop_first()) == (m2, Seq::<ResponseModel>::empty()));
    assert(apply_commands(m1, rest1).1 == rs2 + Seq::<ResponseModel>::empty());
    assert(apply_commands(m, cs).1 == rs1 + apply_commands(m1, rest1).1);
    assert(apply_commands(m, cs).1 =~= seq![
        ResponseModel::Updated,
        ResponseModel::NotReplacingExisting,
    ]);
}

/// Deleting a keyframe at a time where none exists yields `NotFound` and
/// leaves the store unchanged.
pub proof fn lemma_delete_missing_key_frame(m: StoreModel, layer_id: u64, t: u64)
    requires
        m.wf(),
        has_layer(m.layers, layer_id),
        !has_kf(m.layers[layer_pos(m.layers, layer_id)].keyframes, t),
    ensures
        apply_command(m, CommandModel::DeleteKeyFrame(layer_id, t)).0 == m,
        apply_command(m, CommandModel::DeleteKeyFrame(layer_id, t)).1 == seq![
            ResponseModel::NotFound,
        ],
{
}

/// On a layer whose keyframe times all lie at or after `t2`: adding a
/// keyframe at `t`, deleting it again, and reading the range `t..t2` yields
/// `Updated`, `Updated`, and no keyframe entry, with the store back in its
/// original state.
pub proof fn lemma_add_delete_read_round(m: StoreModel, layer_id: u64, t: u64, t2: u64)
    requires
        m.wf(),
        has_layer(m.layers, layer_id),
        t < t2,
        forall|i: int|
            0 <= i < m.layers[layer_pos(m.layers, layer_id)].keyframes.len() ==> t2 <= (
            #[trigger] m.layers[layer_pos(m.layers, layer_id)].keyframes[i]).when,
        forall|i: int, k: int|
            0 <= i < m.attachments.len() && 0 <= k < m.attachments[i].1.len() ==> !((
            #[trigger] m.attachments[i].1[k]).layer_id == layer_id
                && m.attachments[i].1[k].keyframe_time == t),
    ensures
        apply_commands(
            m,
            seq![
                CommandModel::AddKeyFrame(layer_id, t),
                CommandModel::DeleteKeyFrame(layer_id, t),
                CommandModel::ReadKeyFrames(layer_id, t, t2),
            ],
        ).1 == seq![ResponseModel::Updated, ResponseModel::Updated],
        apply_commands(
            m,
            seq![
                CommandModel::AddKeyFrame(layer_id, t),
                CommandModel::DeleteKeyFrame(layer_id, t),
                CommandModel::ReadKeyFrames(layer_id, t, t2),
            ],
        ).0 == m,
{
    let cs = seq![
        CommandModel::AddKeyFrame(layer_id, t),
        CommandModel::DeleteKeyFrame(layer_id, t),
        CommandModel::ReadKeyFrames(layer_id, t, t2),
    ];
    let p = layer_pos(m.layers, layer_id);
    let kfs = m.layers[p].keyframes;
    assert(m.layers[p].wf());
    assert(!has_kf(kfs, t)) by {
        if has_kf(kfs, t) {
            let w = kf_pos(kfs, t);
            assert(kfs[w].when == t);
        }
    }
    lemma_kf_ins_props(kfs, t);
    let q = kf_ins(kfs, t);
    assert(q == 0) by {
        if q > 0 {
            assert(kfs[0].when < t);
        }
    }
    let fresh = KeyFrameModel { when: t, attached: Seq::empty() };
    kfs.insert_ensures(0, fresh);
    let (m1, rs1) = apply_command(m, cs[0]);
    lemma_apply_command_wf(m, cs[0]);
    assert(rs1 == seq![ResponseModel::Updated]);
    let kfs1 = m1.layers[p].keyframes;
    assert(kfs1 == kfs.insert(0, fresh));
    assert(kfs1[0] == fresh);
    assert(m1.layers[p].id == layer_id);
    assert(has_layer(m1.layers, layer_id));
    assert(layer_pos(m1.layers, layer_id) == p) by {
        let w = layer_pos(m1.layers, layer_id);
        assert(m1.layers[w].id == layer_id);
        if w < p {
            assert(m1.layers[w].id < m1.layers[p].id);
        } else if w > p {
            assert(m1.layers[p].id < m1.layers[w].id);
        }
    }
    assert(has_kf(kfs1, t));
    assert(kf_pos(kfs1, t) == 0) by {
        let w = kf_pos(kfs1, t);
        assert(kfs1[w].when == t);
        assert(m1.layers[p].wf());
        if w > 0 {
            assert(kfs1[0].when < kfs1[w].when);
        }
    }
    let (m2, rs2) = apply_command(m1, cs[1]);
    lemma_apply_command_wf(m1, cs[1]);
    assert(rs2 == seq![ResponseModel::Updated]);
    // Deleting the inserted keyframe restores the original layer, and
    // stripping attachment records for a keyframe that held none restores
    // the original table.
    assert(kfs1.remove(0) =~= kfs);
    crate::store_model::lemma_strip_kf_table_props(m1.attachments, layer_id, t);
    assert(m1.attachments == m.attachments);
    assert(m2.attachments =~~= m.attachments) by {
        assert forall|i: int| 0 <= i < m.attachments.len() implies m2.attachments[i]
            =~~= m.attachments[i] by {
            assert(forall|k: int|
                0 <= k < m.attachments[i].1.len() ==> !((#[trigger] m.attachments[i].1[k]).layer_id
                    == layer_id && m.attachments[i].1[k].keyframe_time == t));
            lemma_strip_no_record(m.attachments[i].1, m, layer_id, t);
        }
    }
    assert(m2.layers =~~= m.layers) by {
        assert forall|i: int| 0 <= i < m.layers.len() implies m2.layers[i] =~~= m.layers[i] by {}
    }
    assert(m2 =~~= m);
    let (m3, rs3) = apply_command(m2, cs[2]);
    assert(m3 == m2);
    // The range read starts at insertion position 0 and ends there too,
    // since every keyframe time lies at or after `t2`.
    assert(kf_range_start(kfs, t) == 0);
    lemma_kf_ins_props(kfs, t2);
    assert(kf_ins(kfs, t2) == 0) by {
        if kf_ins(kfs, t2) > 0 {
            assert(kfs[0].when < t2);
        }
    }
    assert(rs3 =~= Seq::<ResponseModel>::empty());
    let rest1 = cs.drop_first();
    let rest2 = rest1.drop_first();
    assert(rest1[0] == cs[1]);
    assert(rest2[0] == cs[2]);
    assert(rest2.drop_first() =~= Seq::<CommandModel>::empty());
    assert(apply_commands(m3, rest2.drop_first()) == (m3, Seq::<ResponseModel>::empty()));
    assert(apply_commands(m2, rest2).0 == m3);
    assert(apply_commands(m2, rest2).1 == rs3 + Seq::<ResponseModel>::empty());
    assert(apply_commands(m1, rest1).0 == m3);
    assert(apply_commands(m1, rest1).1 == rs2 + apply_commands(m2, rest2).1);
    assert(apply_commands(m, cs).0 == m3);
    assert(apply_commands(m, cs).1 == rs1 + apply_commands(m1, rest1).1);
    assert(apply_commands(m, cs).1 =~= seq![ResponseModel::Updated, ResponseModel::Updated]);
}

/// Stripping records of a keyframe that no attachment list mentions leaves
/// the list unchanged.
proof fn lemma_strip_no_record(
    list: Seq<crate::store_model::AttachmentModel>,
    m: StoreModel,
    layer_id: u64,
    when: u64,
)
    requires
        forall|k: int|
            0 <= k < list.len() ==> !((#[trigger] list[k]).layer_id == layer_id
                && list[k].keyframe_time == when),
    ensures
        crate::store_model::strip_kf_atts(list, layer_id, when) == list,
    decreases list.len(),
{
    if list.len() > 0 {
        lemma_strip_no_record(list.drop_last(), m, layer_id, when);
        assert(crate::store_model::strip_kf_atts(list, layer_id, when) =~= list);
    }
}

/// Writing an element whose id is at least every stored id and then reading
/// the highest unused id yields `Updated` and then that id plus one: on an
/// empty store, writing id 5 makes the highest unused id 6.
pub proof fn lemma_highest_unused_after_write(m: StoreModel, id: i64, value: Seq<u8>)
    requires
        m.wf(),
        id < i64::MAX,
        forall|i: int| 0 <= i < m.elements.len() ==> (#[trigger] m.elements[i]).0 <= id,
    ensures
        apply_commands(
            m,
            seq![CommandModel::WriteElement(id, value), CommandModel::ReadHighestUnusedElementId],
        ).1 == seq![ResponseModel::Updated, ResponseModel::HighestUnusedElementId((id + 1) as i64)],
{
    let cs = seq![CommandModel::WriteElement(id, value), CommandModel::ReadHighestUnusedElementId];
    let (m1, rs1) = apply_command(m, cs[0]);
    lemma_apply_command_wf(m, cs[0]);
    assert(rs1 == seq![ResponseModel::Updated]);
    if has_elem(m.elements, id) {
        let w = elem_pos(m.elements, id);
        assert(m.elements[w].0 == id);
        assert(w == m.elements.len() - 1) by {
            if w < m.elements.len() - 1 {
                assert(m.elements[w].0 < m.elements[m.elements.len() - 1].0);
                assert(m.elements[m.elements.len() - 1].0 <= id);
            }
        }
        assert(m1.elements.last() == (id, value));
    } else {
        lemma_elem_ins_props(m.elements, id);
        let q = elem_ins(m.elements, id);
        assert(q == m.elements.len()) by {
            if q < m.elements.len() {
                assert(id <= m.elements[q].0);
                assert(m.elements[q].0 <= id);
                assert(m.elements[q].0 == id);
            }
        }
        m.elements.insert_ensures(q, (id, value));
        assert(m1.elements.last() == (id, value));
    }
    let (m2, rs2) = apply_command(m1, cs[1]);
    assert(rs2 == seq![ResponseModel::HighestUnusedElementId((id + 1) as i64)]);
    let rest1 = cs.drop_first();
    assert(rest1[0] == cs[1]);
    assert(rest1.drop_first() =~= Seq::<CommandModel>::empty());
    assert(apply_commands(m2, rest1.drop_first()) == (m2, Seq::<ResponseModel>::empty()));
    assert(apply_commands(m1, rest1).1 == rs2 + Seq::<ResponseModel>::empty());
    assert(apply_commands(m, cs).1 == rs1 + apply_commands(m1, rest1).1);
    assert(apply_commands(m, cs).1 =~= seq![
        ResponseModel::Updated,
        ResponseModel::HighestUnusedElementId((id + 1) as i64),
    ]);
}

/// The highest unused element id of the empty store is 0.
pub proof fn lemma_highest_unused_empty()
    ensures
        apply_command(StoreModel::empty(), CommandModel::ReadHighestUnusedElementId).1 == seq![
            ResponseModel::HighestUnusedElementId(0),
        ],
{
}

/// Reading `t0..t2` on a layer with consecutive keyframes at `t0` and `t1`
/// (`t0 < t1 < t2`), where no later keyframe starts before `t2`, yields
/// exactly the two entries `(t0, t1)` and `(t1, next start or unbounded)`.
pub proof fn lemma_read_two_key_frames(m: StoreModel, layer_id: u64, t0: u64, t1: u64, t2: u64)
    requires
        m.wf(),
        has_layer(m.layers, layer_id),
        t0 < t1 < t2,
        has_kf(m.layers[layer_pos(m.layers, layer_id)].keyframes, t0),
        has_kf(m.layers[layer_pos(m.layers, layer_id)].keyframes, t1),
        kf_pos(m.layers[layer_pos(m.layers, layer_id)].keyframes, t1) == kf_pos(
            m.layers[layer_pos(m.layers, layer_id)].keyframes,
            t0,
        ) + 1,
        ({
            let kfs = m.layers[layer_pos(m.layers, layer_id)].keyframes;
            let k1 = kf_pos(kfs, t1);
            k1 + 1 < kfs.len() ==> t2 <= kfs[k1 + 1].when
        }),
    ensures
        ({
            let kfs = m.layers[layer_pos(m.layers, layer_id)].keyframes;
            apply_command(m, CommandModel::ReadKeyFrames(layer_id, t0, t2)).1 == seq![
                ResponseModel::KeyFrame(t0, t1),
                ResponseModel::KeyFrame(t1, kf_end(kfs, kf_pos(kfs, t1))),
            ]
        }),
{
    let p = layer_pos(m.layers, layer_id);
    let kfs = m.layers[p].keyframes;
    assert(m.layers[p].wf());
    let k0 = kf_pos(kfs, t0);
    let k1 = kf_pos(kfs, t1);
    assert(kfs[k0].when == t0);
    assert(kfs[k1].when == t1);
    assert(kf_range_start(kfs, t0) == k0);
    lemma_kf_ins_props(kfs, t2);
    let hi = kf_ins(kfs, t2);
    assert(hi == k1 + 1) by {
        if hi <= k1 {
            assert(t2 <= kfs[k1].when);
        }
        if hi > k1 + 1 {
            assert(kfs[k1 + 1].when < t2);
        }
    }
    let rs = apply_command(m, CommandModel::ReadKeyFrames(layer_id, t0, t2)).1;
    assert(rs.len() == 2);
    assert(rs[0] == ResponseModel::KeyFrame(kfs[k0].when, kf_end(kfs, k0)));
    assert(kf_end(kfs, k0) == kfs[k1].when);
    assert(rs[1] == ResponseModel::KeyFrame(kfs[k1].when, kf_end(kfs, k1)));
    assert(rs =~= seq![
        ResponseModel::KeyFrame(t0, t1),
        ResponseModel::KeyFrame(t1, kf_end(kfs, k1)),
    ]);
}

/// Whether a command always produces exactly one response (everything but
/// the bulk reads).
pub open spec fn single_response(c: CommandModel) -> bool {
    match c {
        CommandModel::ReadEdits(_, _) => false,
        CommandModel::ReadLayers => false,
        CommandModel::ReadKeyFrames(_, _, _) => false,
        _ => true,
    }
}

/// A command outside the bulk reads produces exactly one response, whether
/// it succeeds or fails.
pub proof fn lemma_single_response_one(m: StoreModel, c: CommandModel)
    requires
        single_response(c),
    ensures
        apply_command(m, c).1.len() == 1,
{
}

/// A batch of commands outside the bulk reads produces exactly one response
/// per command, in order, and each response is exactly the outcome of its
/// own command in the state left by the commands before it: a failing
/// command never corrupts the others' results.
pub proof fn lemma_batch_responses_align(m: StoreModel, cs: Seq<CommandModel>)
    requires
        forall|i: int| 0 <= i < cs.len() ==> single_response(#[trigger] cs[i]),
    ensures
        apply_commands(m, cs).1.len() == cs.len(),
        forall|i: int|
            0 <= i < cs.len() ==> apply_commands(m, cs).1[i] == apply_command(
                apply_commands(m, cs.take(i)).0,
                cs[i],
            ).1[0],
    decreases cs.len(),
{
    if cs.len() > 0 {
        lemma_single_response_one(m, cs[0]);
        let (m1, rs1) = apply_command(m, cs[0]);
        let rest = cs.drop_first();
        assert(forall|i: int| 0 <= i < rest.len() ==> single_response(#[trigger] rest[i]));
        lemma_batch_responses_align(m1, rest);
        assert forall|i: int|
            0 <= i < cs.len() implies apply_commands(m, cs).1[i] == apply_command(
            apply_commands(m, cs.take(i)).0,
            cs[i],
        ).1[0] by {
            if i == 0 {
                assert(cs.take(0) =~= Seq::<CommandModel>::empty());
                assert(apply_commands(m, cs.take(0)).0 == m);
                assert(apply_commands(m, cs).1[0] == rs1[0]);
            } else {
                assert(cs.take(i)[0] == cs[0]);
                assert(cs.take(i).drop_first() =~= rest.take(i - 1));
                assert(apply_commands(m, cs.take(i)).0 == apply_commands(m1, rest.take(i - 1)).0);
                assert(apply_commands(m, cs).1[i] == apply_commands(m1, rest).1[i - 1]);
                assert(rest[i - 1] == cs[i]);
            }
        }
    }
}

} // verus!

