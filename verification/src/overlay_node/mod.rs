//! Overlay groups: one shard of state per overlay id.
use vstd::prelude::*;
use crate::adnl_node::{
    has_key, has_peer, has_tag, key_at_tag, AdnlAddressUdp, AdnlNode, PeerContext, PeerView,
};
use crate::utils::node_id::{
    compute_overlay_id, node_short_id, overlay_full_id, overlay_short_id, AdnlNodeIdFull,
    AdnlNodeIdShort, OverlayIdFull, OverlayIdShort, StoredAdnlNodeKey,
};

pub mod broadcast_fec;
pub mod id_index;
pub mod lru;
pub mod overlay_shard;
pub mod sample;

pub use self::overlay_shard::{
    OverlayShard, OverlayShardMetrics, OverlayShardOptions, MAX_OVERLAY_PEERS,
};

use self::id_index::{index_entries, index_get, index_insert, index_new, index_remove, IdIndex};
use self::overlay_shard::{
    exchanged_peers, received_broadcast, received_fec_broadcast, short_id_views, with_peers,
    BroadcastOutcome,
};
use crate::proto::{
    node_views, nodes_answer_form, Broadcast, NodeView, OverlayMessage, Query,
};
use crate::subscriber::{QueryBundleConsumingResult, QueryBundleStep, QueryConsumingResult};
use crate::utils::serialize;
use crate::utils::tl::BoxedSerialize;

verus! {

/// Why a request to the overlay node was refused.
#[derive(Clone, Copy, Debug, PartialEq, Eq, Structural)]
pub enum OverlayNodeError {
    /// The message belongs to the broadcast family but is none that is handled.
    UnsupportedOverlayBroadcastMessage,
    /// No shard is kept for the overlay id given.
    UnknownOverlay,
    /// The overlay to delete is public.
    DeletingPublicOverlay,
    /// No subscriber is registered for the overlay of a query.
    NoConsumerFound,
    /// The subscriber handed the query back.
    UnsupportedQuery,
    /// No local identity is registered under the key tag given.
    UnknownKeyTag,
    /// No local identity has the short id given.
    UnknownLocalKey,
}

/// Whether `shards` holds the shard of the overlay `id`.
pub open spec fn has_shard(shards: Seq<OverlayShard>, id: Seq<u8>) -> bool {
    exists|i: int| 0 <= i < shards.len() && (#[trigger] shards[i]).spec_id() == id
}

/// Where the shard of the overlay `id` stands.
pub open spec fn shard_position(shards: Seq<OverlayShard>, id: Seq<u8>) -> int {
    choose|i: int| 0 <= i < shards.len() && (#[trigger] shards[i]).spec_id() == id
}

/// The shard of the overlay `id`.
pub open spec fn shard_of(shards: Seq<OverlayShard>, id: Seq<u8>) -> OverlayShard {
    shards[shard_position(shards, id)]
}

/// No overlay has two shards.
pub open spec fn shards_unique(shards: Seq<OverlayShard>) -> bool {
    forall|i: int, j: int|
        0 <= i < j < shards.len() ==> (#[trigger] shards[i]).spec_id() != (
        #[trigger] shards[j]).spec_id()
}

/// Every shard is well formed.
pub open spec fn shards_wf(shards: Seq<OverlayShard>) -> bool {
    forall|i: int| 0 <= i < shards.len() ==> (#[trigger] shards[i]).wf()
}

/// `shards` without the one at place `i`: the last shard takes its place.
pub open spec fn swap_removed(shards: Seq<OverlayShard>, i: int) -> Seq<OverlayShard> {
    shards.update(i, shards.last()).drop_last()
}

/// Whether `shard` is a shard as it is first made for an overlay.
pub open spec fn is_fresh_shard(
    shard: OverlayShard,
    node_key: StoredAdnlNodeKey,
    overlay_id: Seq<u8>,
    overlay_key: Option<StoredAdnlNodeKey>,
    options: OverlayShardOptions,
) -> bool {
    &&& shard.wf()
    &&& shard.spec_id() == overlay_id
    &&& shard.spec_node_key() == node_key
    &&& shard.spec_overlay_key() == overlay_key
    &&& shard.spec_is_private() == overlay_key.is_some()
    &&& shard.spec_options() == options
    &&& shard.known_peers() == Seq::<Seq<u8>>::empty()
    &&& shard.nodes() == Seq::<crate::proto::NodeView>::empty()
    &&& shard.seen_broadcasts() == Seq::<Seq<u8>>::empty()
    &&& shard.transfers() == Seq::<crate::overlay_node::broadcast_fec::TransferView>::empty()
    &&& shard.spec_metrics() == (OverlayShardMetrics {
        received_broadcasts: 0,
        received_bytes: 0,
        delivered_broadcasts: 0,
        dropped_broadcasts: 0,
        forwarded_broadcasts: 0,
    })
}

/// The full ids of a run of addresses with full ids.
pub open spec fn full_id_views(peers: Seq<(AdnlAddressUdp, AdnlNodeIdFull)>) -> Seq<
    (AdnlAddressUdp, Seq<u8>),
> {
    Seq::new(peers.len(), |i: int| (peers[i].0, peers[i].1@))
}

/// What `add_private_peers` makes of the peer table, and the short ids of
/// the peers that are new, in the order given.
pub open spec fn add_private_peers_model(
    peers: Seq<PeerView>,
    local_id: Seq<u8>,
    added: Seq<(AdnlAddressUdp, Seq<u8>)>,
) -> (Seq<PeerView>, Seq<Seq<u8>>)
    decreases added.len(),
{
    if added.len() == 0 {
        (peers, Seq::empty())
    } else {
        let (peers, new_ids) = add_private_peers_model(peers, local_id, added.drop_last());
        let (address, full_id) = added.last();
        let peer_id = node_short_id(full_id);
        if has_peer(peers, local_id, peer_id) {
            (peers, new_ids)
        } else {
            (
                peers.push(
                    PeerView::fresh(
                        PeerContext::PrivateOverlay,
                        local_id,
                        peer_id,
                        address,
                        full_id,
                    ),
                ),
                new_ids.push(peer_id),
            )
        }
    }
}

/// What `delete_private_peers` makes of the peer table, and whether any peer
/// was there to delete.
pub open spec fn delete_private_peers_model(
    peers: Seq<PeerView>,
    local_id: Seq<u8>,
    deleted: Seq<Seq<u8>>,
) -> (Seq<PeerView>, bool)
    decreases deleted.len(),
{
    if deleted.len() == 0 {
        (peers, false)
    } else {
        let (peers, changed) = delete_private_peers_model(peers, local_id, deleted.drop_last());
        if has_peer(peers, local_id, deleted.last()) {
            (peers.remove(crate::adnl_node::peer_position(peers, local_id, deleted.last())), true)
        } else {
            (peers, changed)
        }
    }
}

/// Whether the lookup table `entries` names exactly the shards `shards`, each
/// under its own id and with its place.
pub open spec fn index_names(entries: Map<Seq<u8>, usize>, shards: Seq<OverlayShard>) -> bool {
    &&& forall|i: int|
        0 <= i < shards.len() ==> {
            &&& entries.contains_key((#[trigger] shards[i]).spec_id())
            &&& entries[shards[i].spec_id()] == i
        }
    &&& forall|id: Seq<u8>| #[trigger]
        entries.contains_key(id) ==> {
            &&& entries[id] < shards.len()
            &&& shards[entries[id] as int].spec_id() == id
        }
}

/// The overlays of one node, with the datagram layer they run on.
#[derive(Debug)]
pub struct OverlayNode {
    adnl: AdnlNode,
    node_key: StoredAdnlNodeKey,
    shard_index: IdIndex,
    shards: Vec<OverlayShard>,
    subscribers: IdIndex,
    zero_state_file_hash: [u8; 32],
}

impl OverlayNode {
    /// The datagram layer.
    pub closed spec fn spec_adnl(&self) -> AdnlNode {
        self.adnl
    }

    /// The identity under which the node takes part in public overlays.
    pub closed spec fn spec_node_key(&self) -> StoredAdnlNodeKey {
        self.node_key
    }

    /// The shards, in the order in which `metrics` lists them.
    pub closed spec fn shards(&self) -> Seq<OverlayShard> {
        self.shards@
    }

    /// The subscribers: for each overlay id that has one, its handle.
    pub closed spec fn subscribers(&self) -> Map<Seq<u8>, usize> {
        index_entries(self.subscribers)
    }

    /// File hash of the zero state of the network.
    pub closed spec fn spec_zero_state_file_hash(&self) -> Seq<u8> {
        self.zero_state_file_hash@
    }

    /// The lookup table names exactly the shards kept, each under its own id.
    pub closed spec fn index_agrees(&self) -> bool {
        index_names(index_entries(self.shard_index), self.shards@)
    }

    /// The datagram layer and every shard are well formed, and no overlay has
    /// two shards.
    pub open spec fn wf(&self) -> bool {
        &&& self.spec_adnl().wf()
        &&& shards_wf(self.shards())
        &&& shards_unique(self.shards())
        &&& self.index_agrees()
    }

    /// An overlay node on top of `adnl`, without overlays. It takes part in
    /// public overlays under the identity registered under `key_tag`.
    pub fn new(adnl: AdnlNode, zero_state_file_hash: [u8; 32], key_tag: usize) -> (node: Result<
        Self,
        OverlayNodeError,
    >)
        requires
            adnl.wf(),
        ensures
            has_tag(adnl.keys(), key_tag) ==> {
                &&& node.is_ok()
                &&& node.unwrap().wf()
                &&& node.unwrap().spec_adnl() == adnl
                &&& node.unwrap().spec_node_key() == key_at_tag(adnl.keys(), key_tag).key
                &&& node.unwrap().spec_zero_state_file_hash() == zero_state_file_hash@
                &&& node.unwrap().shards() == Seq::<OverlayShard>::empty()
                &&& node.unwrap().subscribers() == Map::<Seq<u8>, usize>::empty()
            },
            !has_tag(adnl.keys(), key_tag) ==> node.is_err() && node.unwrap_err()
                == OverlayNodeError::UnknownKeyTag,
    {
        let node_key = match adnl.key_by_tag(key_tag) {
            Ok(node_key) => node_key,
            Err(_) => return Err(OverlayNodeError::UnknownKeyTag),
        };
        Ok(
            OverlayNode {
                adnl,
                node_key,
                shard_index: index_new(),
                shards: Vec::new(),
                subscribers: index_new(),
                zero_state_file_hash,
            },
        )
    }

    /// The counters of every shard, with the shard's overlay id.
    pub fn metrics(&self) -> (metrics: Vec<(OverlayIdShort, OverlayShardMetrics)>)
        ensures
            metrics@.len() == self.shards().len(),
            forall|i: int|
                0 <= i < metrics@.len() ==> {
                    &&& (#[trigger] metrics@[i]).0@ == self.shards()[i].spec_id()
                    &&& metrics@[i].1 == self.shards()[i].spec_metrics()
                },
    {
        let mut metrics: Vec<(OverlayIdShort, OverlayShardMetrics)> = Vec::new();
        let mut i: usize = 0;
        while i < self.shards.len()
            invariant
                i <= self.shards@.len(),
                metrics@.len() == i,
                forall|k: int|
                    0 <= k < i ==> {
                        &&& (#[trigger] metrics@[k]).0@ == self.shards@[k].spec_id()
                        &&& metrics@[k].1 == self.shards@[k].spec_metrics()
                    },
            decreases self.shards@.len() - i,
        {
            let shard = &self.shards[i];
            metrics.push((*shard.id(), shard.metrics()));
            i += 1;
        }
        metrics
    }

    /// The datagram layer.
    pub fn adnl(&self) -> (adnl: &AdnlNode)
        ensures
            *adnl == self.spec_adnl(),
    {
        &self.adnl
    }

    /// The datagram layer, to change its identities and peers.
    pub fn adnl_mut(&mut self) -> (adnl: &mut AdnlNode)
        ensures
            *adnl == old(self).spec_adnl(),
            final(self).spec_adnl() == *final(adnl),
            final(self).spec_node_key() == old(self).spec_node_key(),
            final(self).spec_zero_state_file_hash() == old(self).spec_zero_state_file_hash(),
            final(self).shards() == old(self).shards(),
            final(self).subscribers() == old(self).subscribers(),
            final(self).index_agrees() == old(self).index_agrees(),
    {
        &mut self.adnl
    }

    /// Registers `subscriber` as the consumer of the queries of `overlay_id`.
    /// An overlay keeps the subscriber it has: the result says whether this
    /// one was taken.
    pub fn add_subscriber(&mut self, overlay_id: OverlayIdShort, subscriber: usize) -> (added: bool)
        requires
            old(self).wf(),
        ensures
            final(self).wf(),
            final(self).spec_adnl() == old(self).spec_adnl(),
            final(self).spec_node_key() == old(self).spec_node_key(),
            final(self).spec_zero_state_file_hash() == old(self).spec_zero_state_file_hash(),
            final(self).shards() == old(self).shards(),
            added == !old(self).subscribers().contains_key(overlay_id@),
            final(self).subscribers() == if added {
                old(self).subscribers().insert(overlay_id@, subscriber)
            } else {
                old(self).subscribers()
            },
    {
        match index_get(&self.subscribers, overlay_id.as_bytes()) {
            Some(_) => false,
            None => {
                index_insert(&mut self.subscribers, overlay_id.0, subscriber);
                true
            },
        }
    }

    /// The subscriber of the queries of `overlay_id`, if it has one.
    pub fn subscriber(&self, overlay_id: &OverlayIdShort) -> (subscriber: Option<usize>)
        ensures
            subscriber == (if self.subscribers().contains_key(overlay_id@) {
                Some(self.subscribers()[overlay_id@])
            } else {
                None
            }),
    {
        index_get(&self.subscribers, overlay_id.as_bytes())
    }

    /// Makes the nodes with the addresses and public keys given peers of the
    /// local identity `local_id`, for the sake of a private overlay. Returns
    /// the short ids of those that were not known before.
    ///
    /// Without a peer to add nothing is asked of `local_id`; otherwise it has
    /// to be a registered identity.
    pub fn add_private_peers(
        &mut self,
        local_id: &AdnlNodeIdShort,
        peers: &[(AdnlAddressUdp, AdnlNodeIdFull)],
    ) -> (added: Result<Vec<AdnlNodeIdShort>, OverlayNodeError>)
        requires
            old(self).wf(),
        ensures
            final(self).wf(),
            final(self).spec_adnl().keys() == old(self).spec_adnl().keys(),
            final(self).spec_node_key() == old(self).spec_node_key(),
            final(self).spec_zero_state_file_hash() == old(self).spec_zero_state_file_hash(),
            final(self).shards() == old(self).shards(),
            final(self).subscribers() == old(self).subscribers(),
            peers@.len() > 0 && !has_key(old(self).spec_adnl().keys(), local_id@) ==> {
                &&& added.is_err()
                &&& added.unwrap_err() == OverlayNodeError::UnknownLocalKey
                &&& final(self).spec_adnl().peers() == old(self).spec_adnl().peers()
            },
            peers@.len() == 0 || has_key(old(self).spec_adnl().keys(), local_id@) ==> {
                &&& added.is_ok()
                &&& (final(self).spec_adnl().peers(), short_id_views(added.unwrap()@))
                    == add_private_peers_model(
                    old(self).spec_adnl().peers(),
                    local_id@,
                    full_id_views(peers@),
                )
            },
    {
        let mut new_peers: Vec<AdnlNodeIdShort> = Vec::new();
        let ghost given = full_id_views(peers@);
        let mut i: usize = 0;
        proof {
            assert(given.take(0) =~= Seq::<(AdnlAddressUdp, Seq<u8>)>::empty());
            assert(short_id_views(new_peers@) =~= Seq::<Seq<u8>>::empty());
        }
        while i < peers.len()
            invariant
                i <= peers@.len(),
                given == full_id_views(peers@),
                self.wf(),
                self.adnl.keys() == old(self).adnl.keys(),
                self.node_key == old(self).node_key,
                self.zero_state_file_hash == old(self).zero_state_file_hash,
                self.shards == old(self).shards,
                self.shard_index == old(self).shard_index,
                self.subscribers == old(self).subscribers,
                i > 0 ==> has_key(self.adnl.keys(), local_id@),
                (self.adnl.peers(), short_id_views(new_peers@)) == add_private_peers_model(
                    old(self).adnl.peers(),
                    local_id@,
                    given.take(i as int),
                ),
            decreases peers@.len() - i,
        {
            let (address, full_id) = peers[i];
            let peer_id = full_id.compute_short_id();
            proof {
                assert(given.take(i as int + 1).drop_last() =~= given.take(i as int));
                assert(given.take(i as int + 1).last() == (address, full_id@));
            }
            let ghost before = new_peers@;
            match self.adnl.add_peer(
                PeerContext::PrivateOverlay,
                local_id,
                &peer_id,
                address,
                full_id,
            ) {
                Ok(is_new_peer) => {
                    if is_new_peer {
                        new_peers.push(peer_id);
                        assert(short_id_views(new_peers@) =~= short_id_views(before).push(
                            peer_id@,
                        ));
                    }
                },
                Err(_) => {
                    assert(i == 0);
                    assert(given.take(0) =~= Seq::<(AdnlAddressUdp, Seq<u8>)>::empty());
                    return Err(OverlayNodeError::UnknownLocalKey);
                },
            }
            i += 1;
        }
        assert(given.take(i as int) =~= given);
        Ok(new_peers)
    }

    /// Makes the local identity `local_id` forget the peers given. Returns
    /// whether any of them was known.
    ///
    /// Without a peer to delete nothing is asked of `local_id`; otherwise it
    /// has to be a registered identity.
    pub fn delete_private_peers(&mut self, local_id: &AdnlNodeIdShort, peers: &[AdnlNodeIdShort]) -> (changed:
        Result<bool, OverlayNodeError>)
        requires
            old(self).wf(),
        ensures
            final(self).wf(),
            final(self).spec_adnl().keys() == old(self).spec_adnl().keys(),
            final(self).spec_node_key() == old(self).spec_node_key(),
            final(self).spec_zero_state_file_hash() == old(self).spec_zero_state_file_hash(),
            final(self).shards() == old(self).shards(),
            final(self).subscribers() == old(self).subscribers(),
            peers@.len() > 0 && !has_key(old(self).spec_adnl().keys(), local_id@) ==> {
                &&& changed.is_err()
                &&& changed.unwrap_err() == OverlayNodeError::UnknownLocalKey
                &&& final(self).spec_adnl().peers() == old(self).spec_adnl().peers()
            },
            peers@.len() == 0 || has_key(old(self).spec_adnl().keys(), local_id@) ==> {
                &&& changed.is_ok()
                &&& (final(self).spec_adnl().peers(), changed.unwrap())
                    == delete_private_peers_model(
                    old(self).spec_adnl().peers(),
                    local_id@,
                    short_id_views(peers@),
                )
            },
    {
        let mut changed = false;
        let ghost given = short_id_views(peers@);
        let mut i: usize = 0;
        assert(given.take(0) =~= Seq::<Seq<u8>>::empty());
        while i < peers.len()
            invariant
                i <= peers@.len(),
                given == short_id_views(peers@),
                self.wf(),
                self.adnl.keys() == old(self).adnl.keys(),
                self.node_key == old(self).node_key,
                self.zero_state_file_hash == old(self).zero_state_file_hash,
                self.shards == old(self).shards,
                self.shard_index == old(self).shard_index,
                self.subscribers == old(self).subscribers,
                i > 0 ==> has_key(self.adnl.keys(), local_id@),
                (self.adnl.peers(), changed) == delete_private_peers_model(
                    old(self).adnl.peers(),
                    local_id@,
                    given.take(i as int),
                ),
            decreases peers@.len() - i,
        {
            proof {
                assert(given.take(i as int + 1).drop_last() =~= given.take(i as int));
                assert(given.take(i as int + 1).last() == peers@[i as int]@);
            }
            match self.adnl.delete_peer(local_id, &peers[i]) {
                Ok(deleted) => {
                    changed = changed || deleted;
                },
                Err(_) => {
                    assert(i == 0);
                    return Err(OverlayNodeError::UnknownLocalKey);
                },
            }
            i += 1;
        }
        assert(given.take(i as int) =~= given);
        Ok(changed)
    }

    /// Where the shard of `overlay_id` stands, if there is one.
    fn slot_of(&self, overlay_id: &OverlayIdShort) -> (slot: Option<usize>)
        requires
            self.wf(),
        ensures
            slot matches Some(i) ==> {
                &&& i < self.shards().len()
                &&& self.shards()[i as int].spec_id() == overlay_id@
                &&& has_shard(self.shards(), overlay_id@)
                &&& shard_position(self.shards(), overlay_id@) == i
            },
            slot is None ==> !has_shard(self.shards(), overlay_id@),
    {
        let slot = index_get(&self.shard_index, overlay_id.as_bytes());
        proof {
            match slot {
                Some(i) => {
                    lemma_shard_position(self.shards(), overlay_id@, i as int);
                },
                None => {},
            }
        }
        slot
    }

    /// Starts a public overlay, unless the node has a shard for `overlay_id`
    /// already. Returns the shard of the overlay and whether it is new.
    pub fn add_public_overlay(&mut self, overlay_id: &OverlayIdShort, options: OverlayShardOptions) -> (added:
        (&OverlayShard, bool))
        requires
            old(self).wf(),
        ensures
            final(self).wf(),
            final(self).spec_adnl() == old(self).spec_adnl(),
            final(self).spec_node_key() == old(self).spec_node_key(),
            final(self).spec_zero_state_file_hash() == old(self).spec_zero_state_file_hash(),
            final(self).subscribers() == old(self).subscribers(),
            (final(self).shards(), added.1) == add_overlay_model(
                old(self).shards(),
                overlay_id@,
                *added.0,
            ),
            has_shard(final(self).shards(), overlay_id@),
            *added.0 == shard_of(final(self).shards(), overlay_id@),
            added.1 ==> is_fresh_shard(
                *added.0,
                old(self).spec_node_key(),
                overlay_id@,
                None,
                options,
            ),
    {
        let (slot, new) = self.add_overlay_shard(overlay_id, None, options);
        (&self.shards[slot], new)
    }

    /// Starts a private overlay with the signing key `overlay_key` and the
    /// peers given, unless the node has a shard for `overlay_id` already.
    /// Returns whether the overlay is new; a shard that was there stays as
    /// it is.
    pub fn add_private_overlay(
        &mut self,
        overlay_id: &OverlayIdShort,
        overlay_key: &StoredAdnlNodeKey,
        peers: &[AdnlNodeIdShort],
        options: OverlayShardOptions,
    ) -> (new: bool)
        requires
            old(self).wf(),
        ensures
            final(self).wf(),
            final(self).spec_adnl() == old(self).spec_adnl(),
            final(self).spec_node_key() == old(self).spec_node_key(),
            final(self).spec_zero_state_file_hash() == old(self).spec_zero_state_file_hash(),
            final(self).subscribers() == old(self).subscribers(),
            new == !has_shard(old(self).shards(), overlay_id@),
            !new ==> final(self).shards() == old(self).shards(),
            new ==> {
                let shard = final(self).shards().last();
                &&& final(self).shards().len() == old(self).shards().len() + 1
                &&& final(self).shards().drop_last() == old(self).shards()
                &&& shard.wf()
                &&& shard.spec_id() == overlay_id@
                &&& shard.spec_node_key() == old(self).spec_node_key()
                &&& shard.spec_overlay_key() == Some(*overlay_key)
                &&& shard.spec_is_private()
                &&& shard.spec_options() == options
                &&& shard.known_peers() == with_peers(
                    Seq::<Seq<u8>>::empty(),
                    short_id_views(peers@),
                )
                &&& shard.nodes() == Seq::<crate::proto::NodeView>::empty()
                &&& shard.seen_broadcasts() == Seq::<Seq<u8>>::empty()
                &&& shard.transfers() == Seq::<
                    crate::overlay_node::broadcast_fec::TransferView,
                >::empty()
            },
    {
        let (slot, new) = self.add_overlay_shard(overlay_id, Some(*overlay_key), options);
        if new {
            let ghost before = self.shards@;
            self.shards[slot].add_known_peers(peers);
            proof {
                assert(self.shards@.drop_last() =~= before.drop_last());
                assert(before.drop_last() =~= old(self).shards@);
                assert forall|i: int, j: int| 0 <= i < j < self.shards@.len() implies (
                #[trigger] self.shards@[i]).spec_id() != (#[trigger] self.shards@[j]).spec_id() by {
                    assert(before[i].spec_id() != before[j].spec_id());
                }
            }
        }
        new
    }

    /// Ends the private overlay `overlay_id`. Returns whether there was such
    /// an overlay. A public overlay is not deleted: the request is refused
    /// and the shard stays.
    pub fn delete_private_overlay(&mut self, overlay_id: &OverlayIdShort) -> (deleted: Result<
        bool,
        OverlayNodeError,
    >)
        requires
            old(self).wf(),
        ensures
            final(self).wf(),
            final(self).spec_adnl() == old(self).spec_adnl(),
            final(self).spec_node_key() == old(self).spec_node_key(),
            final(self).spec_zero_state_file_hash() == old(self).spec_zero_state_file_hash(),
            final(self).subscribers() == old(self).subscribers(),
            (final(self).shards(), deleted) == delete_private_overlay_model(
                old(self).shards(),
                overlay_id@,
            ),
    {
        let slot = match self.slot_of(overlay_id) {
            Some(slot) => slot,
            None => return Ok(false),
        };
        if !self.shards[slot].is_private() {
            return Err(OverlayNodeError::DeletingPublicOverlay);
        }
        let last = self.shards.len() - 1;
        let ghost before = self.shards@;
        index_remove(&mut self.shard_index, overlay_id.as_bytes());
        if slot != last {
            let moved = *self.shards[last].id();
            assert(before[last as int].spec_id() != before[slot as int].spec_id());
            index_insert(&mut self.shard_index, moved.0, slot);
        }
        self.shards.swap_remove(slot);
        proof {
            let after = self.shards@;
            assert(after =~= swap_removed(before, slot as int));
            assert forall|i: int| 0 <= i < after.len() implies (#[trigger] after[i]).wf() by {
                if i == slot {
                    assert(before[last as int].wf());
                } else {
                    assert(before[i].wf());
                }
            }
            assert forall|i: int, j: int| 0 <= i < j < after.len() implies (
            #[trigger] after[i]).spec_id() != (#[trigger] after[j]).spec_id() by {
                let i0 = if i == slot {
                    last as int
                } else {
                    i
                };
                let j0 = if j == slot {
                    last as int
                } else {
                    j
                };
                if i0 < j0 {
                    assert(before[i0].spec_id() != before[j0].spec_id());
                } else {
                    assert(before[j0].spec_id() != before[i0].spec_id());
                }
            }
            assert forall|i: int| 0 <= i < after.len() implies {
                &&& index_entries(self.shard_index).contains_key((#[trigger] after[i]).spec_id())
                &&& index_entries(self.shard_index)[after[i].spec_id()] == i
            } by {
                if i == slot {
                    assert(after[i] == before[last as int]);
                } else {
                    assert(after[i] == before[i]);
                    assert(before[i].spec_id() != before[slot as int].spec_id()) by {
                        if i < slot {
                            assert(before[i].spec_id() != before[slot as int].spec_id());
                        } else {
                            assert(before[slot as int].spec_id() != before[i].spec_id());
                        }
                    }
                    assert(before[i].spec_id() != before[last as int].spec_id());
                }
            }
            assert forall|id: Seq<u8>| #[trigger]
                index_entries(self.shard_index).contains_key(id) implies {
                &&& index_entries(self.shard_index)[id] < after.len()
                &&& after[index_entries(self.shard_index)[id] as int].spec_id() == id
            } by {
                let entries = index_entries(old(self).shard_index);
                if slot != last && id == before[last as int].spec_id() {
                } else {
                    assert(entries.contains_key(id));
                    assert(id != before[slot as int].spec_id());
                    assert(entries[id] != last) by {
                        if entries[id] == last {
                            assert(before[last as int].spec_id() == id);
                        }
                    }
                }
            }
        }
        Ok(true)
    }

    /// Full id of the public overlay of `workchain` in this node's network.
    pub fn compute_overlay_id(&self, workchain: i32) -> (id: OverlayIdFull)
        ensures
            id@ == overlay_full_id(workchain, self.spec_zero_state_file_hash()),
    {
        compute_overlay_id(workchain, self.zero_state_file_hash)
    }

    /// Short id of the public overlay of `workchain` in this node's network.
    pub fn compute_overlay_short_id(&self, workchain: i32) -> (id: OverlayIdShort)
        ensures
            id@ == overlay_short_id(overlay_full_id(workchain, self.spec_zero_state_file_hash())),
    {
        self.compute_overlay_id(workchain).compute_short_id()
    }

    /// The shard of `overlay_id`.
    pub fn get_overlay_shard(&self, overlay_id: &OverlayIdShort) -> (shard: Result<
        &OverlayShard,
        OverlayNodeError,
    >)
        requires
            self.wf(),
        ensures
            has_shard(self.shards(), overlay_id@) ==> shard.is_ok() && *shard.unwrap() == shard_of(
                self.shards(),
                overlay_id@,
            ),
            !has_shard(self.shards(), overlay_id@) ==> shard.is_err() && shard.unwrap_err()
                == OverlayNodeError::UnknownOverlay,
    {
        match self.slot_of(overlay_id) {
            Some(slot) => Ok(&self.shards[slot]),
            None => Err(OverlayNodeError::UnknownOverlay),
        }
    }

    /// Takes a custom message that came from the peer `peer_id` at the time
    /// `now`. `message` is what could be read of it: the overlay header and
    /// the broadcast record, or nothing if it is no such pair.
    ///
    /// A message that is no such pair is not consumed. One for an overlay
    /// without a shard is refused, and so is a record of the broadcast family
    /// that is neither a broadcast nor a symbol of one. Any other message
    /// goes to the shard of its overlay, whose answer comes back.
    pub fn try_consume_custom(
        &mut self,
        peer_id: &AdnlNodeIdShort,
        message: &Option<(OverlayMessage, Broadcast)>,
        now: u64,
    ) -> (consumed: Result<Option<BroadcastOutcome>, OverlayNodeError>)
        requires
            old(self).wf(),
        ensures
            final(self).wf(),
            final(self).spec_adnl() == old(self).spec_adnl(),
            final(self).spec_node_key() == old(self).spec_node_key(),
            final(self).spec_zero_state_file_hash() == old(self).spec_zero_state_file_hash(),
            final(self).subscribers() == old(self).subscribers(),
            custom_consumed(
                old(self).shards(),
                peer_id@,
                *message,
                now,
                final(self).shards(),
                consumed,
            ),
    {
        let (header, broadcast) = match message {
            Some((header, broadcast)) => (header, broadcast),
            None => return Ok(None),
        };
        let overlay_id = OverlayIdShort::new(header.overlay);
        let slot = match self.slot_of(&overlay_id) {
            Some(slot) => slot,
            None => return Err(OverlayNodeError::UnknownOverlay),
        };
        let ghost before = self.shards@;
        let outcome = match broadcast {
            Broadcast::Broadcast(broadcast) => self.shards[slot].receive_broadcast(
                peer_id,
                broadcast,
            ),
            Broadcast::BroadcastFec(broadcast) => self.shards[slot].receive_fec_broadcast(
                peer_id,
                broadcast,
                now,
            ),
            Broadcast::Other => return Err(OverlayNodeError::UnsupportedOverlayBroadcastMessage),
        };
        proof {
            lemma_shard_replaced(before, self.shards@, slot as int);
        }
        Ok(Some(outcome))
    }

    /// Takes the custom message of a packet that the peer `peer_id` sent to
    /// the local identity `local_id` under the sequence number `seqno`.
    ///
    /// The datagram layer decides first: a packet from an unknown peer, or one
    /// whose number lies a whole window behind the newest number taken from
    /// that peer, is dropped and its message is offered to nobody. The
    /// message of any other packet goes to `try_consume_custom`, whose answer
    /// comes back.
    pub fn receive_custom(
        &mut self,
        local_id: &AdnlNodeIdShort,
        peer_id: &AdnlNodeIdShort,
        seqno: u64,
        message: &Option<(OverlayMessage, Broadcast)>,
        now: u64,
    ) -> (offered: Option<Result<Option<BroadcastOutcome>, OverlayNodeError>>)
        requires
            old(self).wf(),
        ensures
            final(self).wf(),
            final(self).spec_adnl().keys() == old(self).spec_adnl().keys(),
            final(self).spec_node_key() == old(self).spec_node_key(),
            final(self).spec_zero_state_file_hash() == old(self).spec_zero_state_file_hash(),
            final(self).subscribers() == old(self).subscribers(),
            custom_received(
                old(self).spec_adnl().peers(),
                old(self).shards(),
                local_id@,
                peer_id@,
                seqno,
                *message,
                now,
                final(self).spec_adnl().peers(),
                final(self).shards(),
                offered,
            ),
    {
        match self.adnl.accept_seqno(local_id, peer_id, seqno) {
            Ok(true) => Some(self.try_consume_custom(peer_id, message, now)),
            _ => None,
        }
    }

    /// Takes a bundle of queries.
    ///
    /// The bundle is for this node if it is a pair of an overlay prefix and a
    /// query; any other bundle is handed back. An exchange of peers is
    /// answered by the shard of the overlay. Any other query is for the
    /// subscriber of the overlay: the caller asks it and hands its answer to
    /// `complete_query_bundle`.
    pub fn try_consume_query_bundle(&mut self, queries: Vec<Query>) -> (step: Result<
        QueryBundleStep,
        OverlayNodeError,
    >)
        requires
            old(self).wf(),
        ensures
            final(self).wf(),
            final(self).spec_adnl() == old(self).spec_adnl(),
            final(self).spec_node_key() == old(self).spec_node_key(),
            final(self).spec_zero_state_file_hash() == old(self).spec_zero_state_file_hash(),
            final(self).subscribers() == old(self).subscribers(),
            query_bundle_consumed(
                old(self).shards(),
                old(self).subscribers(),
                queries@,
                final(self).shards(),
                step,
            ),
    {
        if queries.len() != 2 {
            return Ok(QueryBundleStep::Done(QueryBundleConsumingResult::Rejected(queries)));
        }
        let overlay_id = match &queries[0] {
            Query::Overlay { overlay } => OverlayIdShort::new(*overlay),
            _ => {
                return Ok(QueryBundleStep::Done(QueryBundleConsumingResult::Rejected(queries)));
            },
        };
        if let Query::GetRandomPeers { peers } = &queries[1] {
            let slot = match self.slot_of(&overlay_id) {
                Some(slot) => slot,
                None => return Err(OverlayNodeError::UnknownOverlay),
            };
            let ghost before = self.shards@;
            let reply = self.shards[slot].process_get_random_peers(peers);
            proof {
                lemma_shard_replaced(before, self.shards@, slot as int);
                let sample = node_views(reply.nodes@);
                self.shards@[slot as int].lemma_wf();
                assert(sample.len() <= MAX_OVERLAY_PEERS);
                assert(reply.serializable());
            }
            return match serialize(&reply) {
                Ok(answer) => Ok(
                    QueryBundleStep::Done(QueryBundleConsumingResult::Consumed(answer)),
                ),
                Err(_) => vstd::pervasive::unreached(),
            };
        }
        let subscriber = match index_get(&self.subscribers, overlay_id.as_bytes()) {
            Some(subscriber) => subscriber,
            None => return Err(OverlayNodeError::NoConsumerFound),
        };
        let mut queries = queries;
        let query = queries.remove(1);
        Ok(QueryBundleStep::Delegate { subscriber, query })
    }

    /// Turns the answer of a subscriber into the answer to the bundle that
    /// `try_consume_query_bundle` delegated: a subscriber that hands the
    /// query back leaves it unsupported.
    pub fn complete_query_bundle(answer: QueryConsumingResult) -> (result: Result<
        QueryBundleConsumingResult,
        OverlayNodeError,
    >)
        ensures
            match answer {
                QueryConsumingResult::Consumed(bytes) => result matches Ok(
                    QueryBundleConsumingResult::Consumed(given),
                ) && given == bytes,
                QueryConsumingResult::Rejected(_) => fails_with(
                    result,
                    OverlayNodeError::UnsupportedQuery,
                ),
            },
    {
        match answer {
            QueryConsumingResult::Consumed(bytes) => Ok(
                QueryBundleConsumingResult::Consumed(bytes),
            ),
            QueryConsumingResult::Rejected(_) => Err(OverlayNodeError::UnsupportedQuery),
        }
    }

    /// Finds the shard of `overlay_id` or makes one. Returns its place and
    /// whether it is new.
    fn add_overlay_shard(
        &mut self,
        overlay_id: &OverlayIdShort,
        overlay_key: Option<StoredAdnlNodeKey>,
        options: OverlayShardOptions,
    ) -> (added: (usize, bool))
        requires
            old(self).wf(),
        ensures
            final(self).wf(),
            final(self).adnl == old(self).adnl,
            final(self).node_key == old(self).node_key,
            final(self).zero_state_file_hash == old(self).zero_state_file_hash,
            final(self).subscribers == old(self).subscribers,
            added.1 == !has_shard(old(self).shards(), overlay_id@),
            added.0 < final(self).shards().len(),
            final(self).shards()[added.0 as int].spec_id() == overlay_id@,
            has_shard(final(self).shards(), overlay_id@),
            shard_position(final(self).shards(), overlay_id@) == added.0,
            added.1 ==> {
                &&& added.0 == old(self).shards().len()
                &&& final(self).shards() == old(self).shards().push(
                    final(self).shards()[added.0 as int],
                )
                &&& is_fresh_shard(
                    final(self).shards()[added.0 as int],
                    old(self).node_key,
                    overlay_id@,
                    overlay_key,
                    options,
                )
            },
            !added.1 ==> final(self).shards() == old(self).shards(),
    {
        match self.slot_of(overlay_id) {
            Some(slot) => (slot, false),
            None => {
                let slot = self.shards.len();
                let shard = OverlayShard::new(self.node_key, *overlay_id, overlay_key, options);
                let ghost before = self.shards@;
                self.shards.push(shard);
                index_insert(&mut self.shard_index, overlay_id.0, slot);
                proof {
                    let after = self.shards@;
                    assert forall|i: int, j: int| 0 <= i < j < after.len() implies (
                    #[trigger] after[i]).spec_id() != (#[trigger] after[j]).spec_id() by {
                        if j < before.len() {
                            assert(before[i].spec_id() != before[j].spec_id());
                        } else {
                            assert(before[i].spec_id() != overlay_id@);
                        }
                    }
                    lemma_shard_position(after, overlay_id@, slot as int);
                }
                (slot, true)
            },
        }
    }
}

/// What adding an overlay makes of the shards, where `fresh` is the shard
/// made for it, and whether the overlay is new: an overlay that has a shard
/// keeps it.
pub open spec fn add_overlay_model(shards: Seq<OverlayShard>, overlay_id: Seq<u8>, fresh: OverlayShard) -> (
    Seq<OverlayShard>,
    bool,
) {
    if has_shard(shards, overlay_id) {
        (shards, false)
    } else {
        (shards.push(fresh), true)
    }
}

/// What `delete_private_overlay` makes of the shards and what it answers.
pub open spec fn delete_private_overlay_model(shards: Seq<OverlayShard>, overlay_id: Seq<u8>) -> (
    Seq<OverlayShard>,
    Result<bool, OverlayNodeError>,
) {
    if !has_shard(shards, overlay_id) {
        (shards, Ok(false))
    } else if !shard_of(shards, overlay_id).spec_is_private() {
        (shards, Err(OverlayNodeError::DeletingPublicOverlay))
    } else {
        (swap_removed(shards, shard_position(shards, overlay_id)), Ok(true))
    }
}

/// Whether `result` is the refusal `error`.
pub open spec fn fails_with<T>(result: Result<T, OverlayNodeError>, error: OverlayNodeError) -> bool {
    result matches Err(given) && given == error
}

/// What `try_consume_custom` makes of the shards and what it answers.
pub open spec fn custom_consumed(
    pre: Seq<OverlayShard>,
    peer_id: Seq<u8>,
    message: Option<(OverlayMessage, Broadcast)>,
    now: u64,
    post: Seq<OverlayShard>,
    consumed: Result<Option<BroadcastOutcome>, OverlayNodeError>,
) -> bool {
    match message {
        None => post == pre && consumed matches Ok(None),
        Some((header, broadcast)) => {
            let place = shard_position(pre, header.overlay@);
            if !has_shard(pre, header.overlay@) {
                post == pre && fails_with(consumed, OverlayNodeError::UnknownOverlay)
            } else {
                match broadcast {
                    Broadcast::Broadcast(broadcast) => {
                        &&& post.len() == pre.len()
                        &&& post == pre.update(place, post[place])
                        &&& consumed matches Ok(Some(outcome))
                        &&& received_broadcast(pre[place], peer_id, broadcast, post[place], outcome)
                    },
                    Broadcast::BroadcastFec(broadcast) => {
                        &&& post.len() == pre.len()
                        &&& post == pre.update(place, post[place])
                        &&& consumed matches Ok(Some(outcome))
                        &&& received_fec_broadcast(
                            pre[place],
                            peer_id,
                            broadcast,
                            now,
                            post[place],
                            outcome,
                        )
                    },
                    Broadcast::Other => post == pre && fails_with(
                        consumed,
                        OverlayNodeError::UnsupportedOverlayBroadcastMessage,
                    ),
                }
            }
        },
    }
}

/// What `receive_custom` makes of the peers and the shards, and what it
/// answers: the message is offered exactly when the peer is known and takes
/// the packet's sequence number, and the peer remembers the number then.
pub open spec fn custom_received(
    peers: Seq<PeerView>,
    shards: Seq<OverlayShard>,
    local_id: Seq<u8>,
    peer_id: Seq<u8>,
    seqno: u64,
    message: Option<(OverlayMessage, Broadcast)>,
    now: u64,
    peers_after: Seq<PeerView>,
    shards_after: Seq<OverlayShard>,
    offered: Option<Result<Option<BroadcastOutcome>, OverlayNodeError>>,
) -> bool {
    if !has_peer(peers, local_id, peer_id) {
        offered is None && peers_after == peers && shards_after == shards
    } else {
        let place = crate::adnl_node::peer_position(peers, local_id, peer_id);
        let entry = peers[place];
        &&& peers_after == peers.update(
            place,
            PeerView { received: entry.received.after(seqno), ..entry },
        )
        &&& if entry.received.accepts(seqno) {
            &&& offered matches Some(consumed)
            &&& custom_consumed(shards, peer_id, message, now, shards_after, consumed)
        } else {
            offered is None && shards_after == shards
        }
    }
}

/// What `try_consume_query_bundle` makes of the shards and what it answers.
pub open spec fn query_bundle_consumed(
    pre: Seq<OverlayShard>,
    subscribers: Map<Seq<u8>, usize>,
    queries: Seq<Query>,
    post: Seq<OverlayShard>,
    step: Result<QueryBundleStep, OverlayNodeError>,
) -> bool {
    if queries.len() != 2 || !(queries[0] is Overlay) {
        &&& post == pre
        &&& step matches Ok(QueryBundleStep::Done(QueryBundleConsumingResult::Rejected(back)))
        &&& back@ == queries
    } else {
        let overlay = queries[0]->overlay@;
        let place = shard_position(pre, overlay);
        match queries[1] {
            Query::GetRandomPeers { peers } => if !has_shard(pre, overlay) {
                post == pre && fails_with(step, OverlayNodeError::UnknownOverlay)
            } else {
                &&& post.len() == pre.len()
                &&& post == pre.update(place, post[place])
                &&& step matches Ok(
                    QueryBundleStep::Done(QueryBundleConsumingResult::Consumed(answer)),
                )
                &&& exists|reply: Seq<NodeView>|
                    {
                        &&& #[trigger] exchanged_peers(
                            pre[place],
                            node_views(peers@),
                            post[place],
                            reply,
                        )
                        &&& answer@ == nodes_answer_form(reply)
                    }
            },
            query => {
                &&& post == pre
                &&& if subscribers.contains_key(overlay) {
                    &&& step matches Ok(QueryBundleStep::Delegate { subscriber, query: delegated })
                    &&& subscriber == subscribers[overlay]
                    &&& delegated == query
                } else {
                    fails_with(step, OverlayNodeError::NoConsumerFound)
                }
            },
        }
    }
}

/// A public overlay is never deleted: once a public overlay has been added
/// under an id, the request to delete the private overlay of that id is
/// refused and leaves the shards as they are. This holds unless the id named
/// a private overlay before, which the request to add leaves in place.
pub proof fn lemma_public_overlay_is_not_deleted(
    shards: Seq<OverlayShard>,
    overlay_id: Seq<u8>,
    fresh: OverlayShard,
)
    requires
        shards_unique(shards),
        fresh.spec_id() == overlay_id,
        !fresh.spec_is_private(),
        has_shard(shards, overlay_id) ==> !shard_of(shards, overlay_id).spec_is_private(),
    ensures
        ({
            let (added, _) = add_overlay_model(shards, overlay_id, fresh);
            delete_private_overlay_model(added, overlay_id) == (
                added,
                Err::<bool, OverlayNodeError>(OverlayNodeError::DeletingPublicOverlay),
            )
        }),
{
    let (added, _) = add_overlay_model(shards, overlay_id, fresh);
    if !has_shard(shards, overlay_id) {
        assert forall|i: int, j: int| 0 <= i < j < added.len() implies (#[trigger] added[i]).spec_id()
            != (#[trigger] added[j]).spec_id() by {
            if j < shards.len() {
                assert(shards[i].spec_id() != shards[j].spec_id());
            } else {
                assert(shards[i].spec_id() != overlay_id);
            }
        }
        lemma_shard_position(added, overlay_id, shards.len() as int);
    }
}

/// Deleting a private overlay twice: the second request finds nothing, says
/// so, and changes nothing.
pub proof fn lemma_delete_private_overlay_twice(shards: Seq<OverlayShard>, overlay_id: Seq<u8>)
    requires
        shards_unique(shards),
        has_shard(shards, overlay_id),
        shard_of(shards, overlay_id).spec_is_private(),
    ensures
        ({
            let (left, _) = delete_private_overlay_model(shards, overlay_id);
            delete_private_overlay_model(left, overlay_id) == (left, Ok::<bool, OverlayNodeError>(false))
        }),
{
    let place = shard_position(shards, overlay_id);
    let (left, _) = delete_private_overlay_model(shards, overlay_id);
    lemma_shard_position(shards, overlay_id, place);
    if has_shard(left, overlay_id) {
        let k = shard_position(left, overlay_id);
        let k0 = if k == place {
            shards.len() - 1
        } else {
            k
        };
        assert(left[k] == shards[k0]);
        if k0 < place {
            assert(shards[k0].spec_id() != shards[place].spec_id());
        } else {
            assert(shards[place].spec_id() != shards[k0].spec_id());
        }
    }
}

/// Replacing a shard by one of the same overlay that is well formed keeps
/// all shards well formed and keeps one shard per overlay.
pub proof fn lemma_shard_replaced(before: Seq<OverlayShard>, after: Seq<OverlayShard>, place: int)
    requires
        shards_wf(before),
        shards_unique(before),
        0 <= place < before.len(),
        after.len() == before.len(),
        forall|i: int| 0 <= i < before.len() && i != place ==> after[i] == before[i],
        after[place].wf(),
        after[place].spec_id() == before[place].spec_id(),
    ensures
        shards_wf(after),
        shards_unique(after),
        after == before.update(place, after[place]),
        forall|i: int| 0 <= i < after.len() ==> (#[trigger] after[i]).spec_id() == before[i].spec_id(),
{
    assert(after =~= before.update(place, after[place]));
    assert forall|i: int| 0 <= i < after.len() implies (#[trigger] after[i]).wf() by {
        if i != place {
            assert(before[i].wf());
        }
    }
    assert forall|i: int, j: int| 0 <= i < j < after.len() implies (#[trigger] after[i]).spec_id()
        != (#[trigger] after[j]).spec_id() by {
        assert(before[i].spec_id() != before[j].spec_id());
    }
}

/// With one shard per overlay, the position of an overlay's shard is the one
/// place that holds it.
pub proof fn lemma_shard_position(shards: Seq<OverlayShard>, id: Seq<u8>, i: int)
    requires
        shards_unique(shards),
        0 <= i < shards.len(),
        shards[i].spec_id() == id,
    ensures
        has_shard(shards, id),
        shard_position(shards, id) == i,
        shard_of(shards, id) == shards[i],
{
    let j = shard_position(shards, id);
    if j < i {
        assert(shards[j].spec_id() != shards[i].spec_id());
    } else if i < j {
        assert(shards[i].spec_id() != shards[j].spec_id());
    }
}

} // verus!
