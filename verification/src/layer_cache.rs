//! The layer rendering cache: a per-(layer, time) view of cached drawing
//! instructions, backed by the storage command channel.
//!
//! Every cache operation is a round trip over the same serialized channel
//! as ordinary edits: this module builds the command to submit and decodes
//! the responses that come back, so the caller that owns the channel only
//! moves messages.  A malformed cached payload decodes to nothing and so
//! behaves as a miss.

use vstd::prelude::*;
use crate::protocol::{CommandModel, ResponseModel, StorageCommand, StorageResponse};
use crate::drawing_codec::{DrawingCommand, decode_drawing, encode_drawing, spec_parse_drawing,
    spec_serialize_drawing};

verus! {

/// A discriminator for which derived rendering artifact a cached blob
/// corresponds to.
#[derive(Clone, Copy, PartialEq, Eq, Debug)]
pub enum CacheKind {
    /// The pre-rendered onion-skin pass of a layer.
    OnionSkinLayer,
}

impl CacheKind {
    /// The canonical serialized form of this cache kind, used as the cache
    /// key.
    pub open spec fn spec_key(self) -> Seq<u8> {
        match self {
            CacheKind::OnionSkinLayer => seq![79u8],
        }
    }

    /// Serializes this cache kind into its canonical key bytes.
    pub fn serialize(&self) -> (key: Vec<u8>)
        ensures
            key@ == self.spec_key(),
    {
        let mut key: Vec<u8> = Vec::new();
        match self {
            CacheKind::OnionSkinLayer => {
                key.push(79);
            },
        }
        proof {
            assert(key@ =~= self.spec_key());
        }
        key
    }
}

/// What the cache decides after a retrieval round trip: use the cached
/// instructions, or generate them anew.
pub enum CachePlan {
    /// The cache held a well-formed payload: use it.
    UseCached(Vec<DrawingCommand>),
    /// The cache missed or held a malformed payload: generate the value,
    /// store it with [`StreamLayerCache::store_command`], and use it.
    Generate,
}

/// The cache for one layer at one time, as a client of the storage command
/// channel.
pub struct StreamLayerCache {
    /// The layer this cache is for.
    pub layer_id: u64,
    /// The time this cache is for, in milliseconds.
    pub when: u64,
}

impl StreamLayerCache {
    /// Creates a cache view for the given layer and time.
    pub fn new(layer_id: u64, when: u64) -> (cache: StreamLayerCache)
        ensures
            cache.layer_id == layer_id,
            cache.when == when,
    {
        StreamLayerCache { layer_id, when }
    }

    /// The command that invalidates the stored rendering of the given kind.
    pub fn invalidate_command(&self, kind: CacheKind) -> (c: StorageCommand)
        ensures
            c.deep_view() == CommandModel::DeleteLayerCache(
                self.layer_id,
                self.when,
                kind.spec_key(),
            ),
    {
        let key = kind.serialize();
        proof {
            assert(key.deep_view() =~= key@);
        }
        StorageCommand::DeleteLayerCache(self.layer_id, self.when, key)
    }

    /// The command that stores a drawing-instruction list, in its canonical
    /// encoded form, as the rendering of the given kind.
    pub fn store_command(&self, kind: CacheKind, drawing: &Vec<DrawingCommand>) -> (c:
        StorageCommand)
        ensures
            c.deep_view() == CommandModel::WriteLayerCache(
                self.layer_id,
                self.when,
                kind.spec_key(),
                spec_serialize_drawing(drawing@),
            ),
    {
        let key = kind.serialize();
        let payload = encode_drawing(drawing);
        proof {
            assert(key.deep_view() =~= key@);
            assert(payload.deep_view() =~= payload@);
        }
        StorageCommand::WriteLayerCache(self.layer_id, self.when, key, payload)
    }

    /// The command that reads back the stored rendering of the given kind.
    pub fn retrieve_command(&self, kind: CacheKind) -> (c: StorageCommand)
        ensures
            c.deep_view() == CommandModel::ReadLayerCache(
                self.layer_id,
                self.when,
                kind.spec_key(),
            ),
    {
        let key = kind.serialize();
        proof {
            assert(key.deep_view() =~= key@);
        }
        StorageCommand::ReadLayerCache(self.layer_id, self.when, key)
    }

    /// Decodes the responses of a retrieval round trip: the last response
    /// must be a cache hit whose payload decodes, anything else is a miss.
    pub fn decode_retrieved(responses: Vec<StorageResponse>) -> (r: Option<Vec<DrawingCommand>>)
        ensures
            ({
                let rs = responses.deep_view();
                if rs.len() > 0 && (rs.last() matches ResponseModel::LayerCache(payload)) {
                    match spec_parse_drawing(rs.last()->LayerCache_0) {
                        Some((cs, rest)) => r matches Some(cmds) && cmds@ == cs,
                        None => r is None,
                    }
                } else {
                    r is None
                }
            }),
    {
        let mut responses = responses;
        let n = responses.len();
        if n == 0 {
            return None;
        }
        proof {
            assert(responses.deep_view().last() == responses@[n - 1].deep_view());
        }
        match responses.pop() {
            Some(StorageResponse::LayerCache(payload)) => {
                proof {
                    assert(payload.deep_view() =~= payload@);
                }
                decode_drawing(payload)
            },
            _ => None,
        }
    }

    /// Decides a retrieve-or-generate round: a decodable cached payload is
    /// used as is; on a miss the caller must run its generator exactly
    /// once, submit [`StreamLayerCache::store_command`] with the result,
    /// and use it.
    pub fn retrieve_or_generate_plan(responses: Vec<StorageResponse>) -> (plan: CachePlan)
        ensures
            ({
                let rs = responses.deep_view();
                if rs.len() > 0 && (rs.last() matches ResponseModel::LayerCache(payload)) {
                    match spec_parse_drawing(rs.last()->LayerCache_0) {
                        Some((cs, rest)) => plan matches CachePlan::UseCached(cmds) && cmds@ == cs,
                        None => plan is Generate,
                    }
                } else {
                    plan is Generate
                }
            }),
    {
        match Self::decode_retrieved(responses) {
            Some(cmds) => CachePlan::UseCached(cmds),
            None => CachePlan::Generate,
        }
    }
}

} // verus!
