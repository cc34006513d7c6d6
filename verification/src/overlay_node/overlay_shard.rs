//! The state of one overlay: who is in it and which broadcasts went by.
use vstd::prelude::*;
use crate::overlay_node::broadcast_fec::{
    broadcast_fec_hash, broadcast_fec_id_form, check_fec_symbol, fec_symbol_acceptable,
    fec_type_form, has_transfer, lemma_transfer_position, settle_transfer, transfer_position,
    transfer_views, transfers_unique, write_broadcast_fec_id, write_fec_type, BroadcastTransfer,
    TransferState, TransferView,
};
use crate::rldp_node::decoder::{decoder_answer, decoder_decode, decoder_new, symbol_id_of};
use crate::overlay_node::lru::{lemma_recently_used_is_held, log_after, touched, LruSet};
use crate::overlay_node::sample::{is_sample, sample_indices};
use crate::proto::{
    broadcast_id_form, broadcast_to_sign_form, node_to_sign_form, node_views, write_broadcast_id,
    write_broadcast_to_sign, write_node_to_sign, BroadcastFec, BroadcastSimple, Node, NodeView,
    Nodes,
};
use crate::rldp_node::encoder::MAX_TRANSMISSION_UNIT;
use crate::utils::node_id::{
    bytes32_eq, ed25519_valid, ed25519_verify, node_short_id, AdnlNodeIdFull, AdnlNodeIdShort,
    OverlayIdShort, StoredAdnlNodeKey,
};
use crate::utils::{sha256, sha256_digest};

verus! {

/// Largest number of peers that a shard keeps.
pub const MAX_OVERLAY_PEERS: usize = 65536;

/// Length of an Ed25519 signature.
pub const SIGNATURE_LEN: usize = 64;

/// How a shard behaves.
#[derive(Clone, Copy, Debug, PartialEq, Eq, Structural)]
pub struct OverlayShardOptions {
    /// To how many peers a broadcast is passed on.
    pub broadcast_target_count: usize,
    /// How many broadcasts are remembered to tell repetitions.
    pub max_broadcast_log_size: usize,
    /// How many announcements an exchange of peers hands out at most.
    pub max_shard_peers_amount: usize,
    /// Largest payload of a broadcast sent as symbols.
    pub max_fec_broadcast_size: u32,
    /// How many broadcasts sent as symbols are followed at a time.
    pub max_fec_transfers: usize,
    /// How long, in seconds, a broadcast sent as symbols is followed.
    pub fec_transfer_timeout: u64,
}

/// Counters of one shard. Each stops at the largest value it can hold.
#[derive(Clone, Copy, Debug, PartialEq, Eq, Structural)]
pub struct OverlayShardMetrics {
    /// Broadcasts that came in, repetitions included.
    pub received_broadcasts: u64,
    /// Bytes of payload in the broadcasts that came in.
    pub received_bytes: u64,
    /// Broadcasts handed to the subscriber.
    pub delivered_broadcasts: u64,
    /// Broadcasts dropped as repetitions or for a bad signature.
    pub dropped_broadcasts: u64,
    /// Copies of broadcasts passed on to peers.
    pub forwarded_broadcasts: u64,
}

/// `counter` raised by `by`, stopping at the largest value.
pub open spec fn raised(counter: u64, by: int) -> u64 {
    if counter + by > u64::MAX {
        u64::MAX
    } else {
        (counter + by) as u64
    }
}

fn raise(counter: u64, by: usize) -> (sum: u64)
    ensures
        sum == raised(counter, by as int),
{
    let by = by as u64;
    if counter > u64::MAX - by {
        u64::MAX
    } else {
        counter + by
    }
}

/// What became of a broadcast that came in.
#[derive(Debug)]
pub enum BroadcastOutcome {
    /// It had been seen before and was dropped.
    Duplicate,
    /// Its signature does not hold and it was dropped.
    Rejected,
    /// It is new and genuine: `data` goes to the subscriber, and the packet
    /// as it came is passed on to `neighbours`.
    Delivered { data: Vec<u8>, source: AdnlNodeIdShort, neighbours: Vec<AdnlNodeIdShort> },
    /// It is a symbol of a payload that is not complete yet: the packet as it
    /// came is passed on to `neighbours`.
    Pending { neighbours: Vec<AdnlNodeIdShort> },
}

/// The ids of a run of short ids.
pub open spec fn short_id_views(ids: Seq<AdnlNodeIdShort>) -> Seq<Seq<u8>> {
    Seq::new(ids.len(), |i: int| ids[i]@)
}

/// `items` without the ids `first` and `second`.
pub open spec fn excluding(items: Seq<Seq<u8>>, first: Seq<u8>, second: Seq<u8>) -> Seq<Seq<u8>>
    decreases items.len(),
{
    if items.len() == 0 {
        Seq::empty()
    } else if items.last() == first || items.last() == second {
        excluding(items.drop_last(), first, second)
    } else {
        excluding(items.drop_last(), first, second).push(items.last())
    }
}

/// The known peers once every id of `peers` has been used, in order.
pub open spec fn with_peers(known: Seq<Seq<u8>>, peers: Seq<Seq<u8>>) -> Seq<Seq<u8>>
    decreases peers.len(),
{
    if peers.len() == 0 {
        known
    } else {
        touched(with_peers(known, peers.drop_last()), peers.last(), MAX_OVERLAY_PEERS as int)
    }
}

/// The hash that identifies a broadcast: the digest of its id record, made of
/// the source's short id, the digest of the payload, the flags and the date.
pub open spec fn broadcast_hash(src: Seq<u8>, data: Seq<u8>, flags: i32, date: i32) -> Seq<u8> {
    sha256_digest(broadcast_id_form(node_short_id(src), sha256_digest(data), flags, date))
}

/// Whether `signature` is the source's signature of a broadcast.
pub open spec fn broadcast_signed(
    src: Seq<u8>,
    data: Seq<u8>,
    flags: i32,
    date: i32,
    signature: Seq<u8>,
) -> bool {
    &&& signature.len() == SIGNATURE_LEN
    &&& ed25519_valid(
        src,
        broadcast_to_sign_form(broadcast_hash(src, data, flags, date), date),
        signature,
    )
}

/// Whether `node` is a genuine announcement for the overlay `overlay`.
pub open spec fn node_valid(node: NodeView, overlay: Seq<u8>) -> bool {
    &&& node.overlay == overlay
    &&& node.signature.len() == SIGNATURE_LEN
    &&& ed25519_valid(
        node.id,
        node_to_sign_form(node_short_id(node.id), node.overlay, node.version),
        node.signature,
    )
}

/// Whether `nodes` holds an announcement of the key `id`.
pub open spec fn has_node(nodes: Seq<NodeView>, id: Seq<u8>) -> bool {
    exists|i: int| 0 <= i < nodes.len() && (#[trigger] nodes[i]).id == id
}

/// No key has two announcements.
pub open spec fn nodes_unique(nodes: Seq<NodeView>) -> bool {
    forall|i: int, j: int|
        0 <= i < j < nodes.len() ==> (#[trigger] nodes[i]).id != (#[trigger] nodes[j]).id
}

/// Peers and announcements once `node` has come in by gossip: a genuine
/// announcement makes its node a peer used last, and is kept unless its key
/// has one already or the table is full.
pub open spec fn merge_node(
    known: Seq<Seq<u8>>,
    nodes: Seq<NodeView>,
    node: NodeView,
    overlay: Seq<u8>,
) -> (Seq<Seq<u8>>, Seq<NodeView>) {
    if !node_valid(node, overlay) {
        (known, nodes)
    } else {
        (
            touched(known, node_short_id(node.id), MAX_OVERLAY_PEERS as int),
            if has_node(nodes, node.id) || nodes.len() >= MAX_OVERLAY_PEERS {
                nodes
            } else {
                nodes.push(node)
            },
        )
    }
}

/// Peers and announcements once all of `incoming` have come in, in order.
pub open spec fn merge_nodes(
    known: Seq<Seq<u8>>,
    nodes: Seq<NodeView>,
    incoming: Seq<NodeView>,
    overlay: Seq<u8>,
) -> (Seq<Seq<u8>>, Seq<NodeView>)
    decreases incoming.len(),
{
    if incoming.len() == 0 {
        (known, nodes)
    } else {
        let (known, nodes) = merge_nodes(known, nodes, incoming.drop_last(), overlay);
        merge_node(known, nodes, incoming.last(), overlay)
    }
}

/// The kinds of outcome that the counters tell apart.
#[derive(Clone, Copy, Debug, PartialEq, Eq, Structural)]
pub enum Counted {
    Dropped,
    Delivered,
    Pending,
}

/// How the counters see `outcome`.
pub open spec fn counted(outcome: BroadcastOutcome) -> Counted {
    match outcome {
        BroadcastOutcome::Duplicate => Counted::Dropped,
        BroadcastOutcome::Rejected => Counted::Dropped,
        BroadcastOutcome::Delivered { .. } => Counted::Delivered,
        BroadcastOutcome::Pending { .. } => Counted::Pending,
    }
}

/// The peers to which `outcome` asks to pass the packet on.
pub open spec fn forwarded_to(outcome: BroadcastOutcome) -> Seq<AdnlNodeIdShort> {
    match outcome {
        BroadcastOutcome::Delivered { neighbours, .. } => neighbours@,
        BroadcastOutcome::Pending { neighbours } => neighbours@,
        _ => Seq::empty(),
    }
}

/// The counters after a packet with `bytes` bytes of payload: it counts as
/// received, as delivered or dropped according to `kind`, and as passed on
/// to `forwarded` peers.
pub open spec fn metrics_after(
    metrics: OverlayShardMetrics,
    bytes: int,
    kind: Counted,
    forwarded: int,
) -> OverlayShardMetrics {
    OverlayShardMetrics {
        received_broadcasts: raised(metrics.received_broadcasts, 1),
        received_bytes: raised(metrics.received_bytes, bytes),
        delivered_broadcasts: if kind == Counted::Delivered {
            raised(metrics.delivered_broadcasts, 1)
        } else {
            metrics.delivered_broadcasts
        },
        dropped_broadcasts: if kind == Counted::Dropped {
            raised(metrics.dropped_broadcasts, 1)
        } else {
            metrics.dropped_broadcasts
        },
        forwarded_broadcasts: raised(metrics.forwarded_broadcasts, forwarded),
    }
}

/// The deadline of a transfer that starts at `now`.
pub open spec fn deadline_after(now: u64, timeout: u64) -> u64 {
    if now + timeout > u64::MAX {
        u64::MAX
    } else {
        (now + timeout) as u64
    }
}

/// Copies a signature of the right length into an array.
pub fn signature_bytes(signature: &Vec<u8>) -> (bytes: Option<[u8; 64]>)
    ensures
        signature@.len() == SIGNATURE_LEN ==> bytes.is_some() && bytes.unwrap()@ == signature@,
        signature@.len() != SIGNATURE_LEN ==> bytes.is_none(),
{
    if signature.len() != SIGNATURE_LEN {
        return None;
    }
    let mut bytes = [0u8; 64];
    let mut i: usize = 0;
    while i < SIGNATURE_LEN
        invariant
            i <= SIGNATURE_LEN,
            signature@.len() == SIGNATURE_LEN,
            forall|k: int| 0 <= k < i ==> bytes@[k] == signature@[k],
        decreases SIGNATURE_LEN - i,
    {
        bytes[i] = signature[i];
        i += 1;
    }
    assert(bytes@ =~= signature@);
    Some(bytes)
}

/// Checks the announcement `node` against the overlay it should be for.
pub fn check_node(node: &Node, overlay: &OverlayIdShort) -> (valid: bool)
    ensures
        valid == node_valid(node@, overlay@),
{
    if !bytes32_eq(&node.overlay, overlay.as_bytes()) {
        return false;
    }
    let signature = match signature_bytes(&node.signature) {
        Some(signature) => signature,
        None => return false,
    };
    let short_id = AdnlNodeIdFull::new(node.id).compute_short_id();
    let mut record: Vec<u8> = Vec::new();
    write_node_to_sign(&mut record, short_id.as_bytes(), &node.overlay, node.version);
    assert(record@ =~= node_to_sign_form(node_short_id(node.id@), node.overlay@, node.version));
    ed25519_verify(&node.id, record.as_slice(), &signature)
}

/// The state of one overlay.
#[derive(Debug)]
pub struct OverlayShard {
    overlay_id: OverlayIdShort,
    node_key: StoredAdnlNodeKey,
    overlay_key: Option<StoredAdnlNodeKey>,
    options: OverlayShardOptions,
    known_peers: LruSet,
    nodes: Vec<Node>,
    received_broadcasts: LruSet,
    transfers: Vec<BroadcastTransfer>,
    metrics: OverlayShardMetrics,
}

impl OverlayShard {
    /// The overlay's short id.
    pub closed spec fn spec_id(&self) -> Seq<u8> {
        self.overlay_id@
    }

    /// Whether the overlay is private: it has a signing key of its own.
    pub closed spec fn spec_is_private(&self) -> bool {
        self.overlay_key.is_some()
    }

    /// The overlay's own key, if it is private.
    pub closed spec fn spec_overlay_key(&self) -> Option<StoredAdnlNodeKey> {
        self.overlay_key
    }

    /// The key of the node that holds the shard.
    pub closed spec fn spec_node_key(&self) -> StoredAdnlNodeKey {
        self.node_key
    }

    /// The options the shard was made with.
    pub closed spec fn spec_options(&self) -> OverlayShardOptions {
        self.options
    }

    /// The peers known, the one seen last at the end.
    pub closed spec fn known_peers(&self) -> Seq<Seq<u8>> {
        self.known_peers.items()
    }

    /// The announcements kept, in the order of their arrival.
    pub closed spec fn nodes(&self) -> Seq<NodeView> {
        node_views(self.nodes@)
    }

    /// The hashes of the broadcasts remembered, the one seen last at the end.
    pub closed spec fn seen_broadcasts(&self) -> Seq<Seq<u8>> {
        self.received_broadcasts.items()
    }

    /// The broadcasts sent as symbols that are followed, in the order in
    /// which their first symbols came.
    pub closed spec fn transfers(&self) -> Seq<TransferView> {
        transfer_views(self.transfers@)
    }

    /// The counters.
    pub closed spec fn spec_metrics(&self) -> OverlayShardMetrics {
        self.metrics
    }

    /// The bounds are kept and nothing is held twice.
    pub closed spec fn wf(&self) -> bool {
        &&& self.known_peers.wf()
        &&& self.known_peers.capacity() == MAX_OVERLAY_PEERS
        &&& self.received_broadcasts.wf()
        &&& self.received_broadcasts.capacity() == self.options.max_broadcast_log_size
        &&& nodes_unique(self.nodes())
        &&& self.nodes().len() <= MAX_OVERLAY_PEERS
        &&& forall|i: int|
            0 <= i < self.nodes().len() ==> (#[trigger] self.nodes()[i]).signature.len()
                == SIGNATURE_LEN
        &&& transfers_unique(self.transfers())
        &&& forall|i: int| 0 <= i < self.transfers@.len() ==> (#[trigger] self.transfers@[i]).wf()
    }

    /// What `wf` says of the tables.
    pub proof fn lemma_wf(&self)
        requires
            self.wf(),
        ensures
            self.known_peers().no_duplicates(),
            self.known_peers().len() <= MAX_OVERLAY_PEERS,
            self.seen_broadcasts().no_duplicates(),
            self.seen_broadcasts().len() <= self.spec_options().max_broadcast_log_size,
            nodes_unique(self.nodes()),
            self.nodes().len() <= MAX_OVERLAY_PEERS,
            transfers_unique(self.transfers()),
    {
    }

    /// A shard that knows no peer and has seen no broadcast. With an overlay
    /// key it is private, without one it is public.
    pub fn new(
        node_key: StoredAdnlNodeKey,
        overlay_id: OverlayIdShort,
        overlay_key: Option<StoredAdnlNodeKey>,
        options: OverlayShardOptions,
    ) -> (shard: Self)
        ensures
            shard.wf(),
            shard.spec_id() == overlay_id@,
            shard.spec_node_key() == node_key,
            shard.spec_overlay_key() == overlay_key,
            shard.spec_is_private() == overlay_key.is_some(),
            shard.spec_options() == options,
            shard.known_peers() == Seq::<Seq<u8>>::empty(),
            shard.nodes() == Seq::<NodeView>::empty(),
            shard.seen_broadcasts() == Seq::<Seq<u8>>::empty(),
            shard.transfers() == Seq::<TransferView>::empty(),
            shard.spec_metrics() == (OverlayShardMetrics {
                received_broadcasts: 0,
                received_bytes: 0,
                delivered_broadcasts: 0,
                dropped_broadcasts: 0,
                forwarded_broadcasts: 0,
            }),
    {
        let shard = OverlayShard {
            overlay_id,
            node_key,
            overlay_key,
            options,
            known_peers: LruSet::new(MAX_OVERLAY_PEERS),
            nodes: Vec::new(),
            received_broadcasts: LruSet::new(options.max_broadcast_log_size),
            transfers: Vec::new(),
            metrics: OverlayShardMetrics {
                received_broadcasts: 0,
                received_bytes: 0,
                delivered_broadcasts: 0,
                dropped_broadcasts: 0,
                forwarded_broadcasts: 0,
            },
        };
        assert(shard.nodes() =~= Seq::<NodeView>::empty());
        assert(shard.transfers() =~= Seq::<TransferView>::empty());
        shard
    }

    /// The overlay's short id.
    pub fn id(&self) -> (id: &OverlayIdShort)
        ensures
            id@ == self.spec_id(),
    {
        &self.overlay_id
    }

    /// Whether the overlay is private.
    pub fn is_private(&self) -> (private: bool)
        ensures
            private == self.spec_is_private(),
    {
        self.overlay_key.is_some()
    }

    /// The key that signs what this shard sends: the overlay's own key if it
    /// is private, the node's key if it is public.
    pub fn signing_key(&self) -> (key: &StoredAdnlNodeKey)
        ensures
            *key == (match self.spec_overlay_key() {
                Some(overlay_key) => overlay_key,
                None => self.spec_node_key(),
            }),
    {
        match &self.overlay_key {
            Some(overlay_key) => overlay_key,
            None => &self.node_key,
        }
    }

    /// The options the shard was made with.
    pub fn options(&self) -> (options: &OverlayShardOptions)
        ensures
            *options == self.spec_options(),
    {
        &self.options
    }

    /// The counters as they stand.
    pub fn metrics(&self) -> (metrics: OverlayShardMetrics)
        ensures
            metrics == self.spec_metrics(),
    {
        self.metrics
    }

    /// Number of peers known.
    pub fn known_peer_count(&self) -> (count: usize)
        ensures
            count == self.known_peers().len(),
    {
        self.known_peers.len()
    }

    /// Number of announcements kept.
    pub fn node_count(&self) -> (count: usize)
        ensures
            count == self.nodes().len(),
    {
        self.nodes.len()
    }

    /// Number of broadcasts sent as symbols that are followed.
    pub fn transfer_count(&self) -> (count: usize)
        ensures
            count == self.transfers().len(),
    {
        self.transfers.len()
    }

    /// Number of broadcasts remembered.
    pub fn seen_broadcast_count(&self) -> (count: usize)
        ensures
            count == self.seen_broadcasts().len(),
    {
        self.received_broadcasts.len()
    }

    /// Whether `peer_id` is a known peer.
    pub fn is_known_peer(&self, peer_id: &AdnlNodeIdShort) -> (known: bool)
        ensures
            known == self.known_peers().contains(peer_id@),
    {
        self.known_peers.contains(peer_id.as_bytes())
    }

    /// Makes every id of `peers` a known peer, used last in the order given.
    /// Where that makes more than the shard keeps, the peers unused for
    /// longest go.
    pub fn add_known_peers(&mut self, peers: &[AdnlNodeIdShort])
        requires
            old(self).wf(),
        ensures
            final(self).wf(),
            final(self).known_peers() == with_peers(
                old(self).known_peers(),
                short_id_views(peers@),
            ),
            final(self).spec_id() == old(self).spec_id(),
            final(self).spec_node_key() == old(self).spec_node_key(),
            final(self).spec_overlay_key() == old(self).spec_overlay_key(),
            final(self).spec_is_private() == old(self).spec_is_private(),
            final(self).spec_options() == old(self).spec_options(),
            final(self).nodes() == old(self).nodes(),
            final(self).seen_broadcasts() == old(self).seen_broadcasts(),
            final(self).transfers() == old(self).transfers(),
            final(self).spec_metrics() == old(self).spec_metrics(),
    {
        let ghost ids = short_id_views(peers@);
        let mut i: usize = 0;
        assert(ids.take(0) =~= Seq::<Seq<u8>>::empty());
        while i < peers.len()
            invariant
                i <= peers@.len(),
                ids == short_id_views(peers@),
                self.wf(),
                self.known_peers() == with_peers(old(self).known_peers(), ids.take(i as int)),
                self.overlay_id == old(self).overlay_id,
                self.node_key == old(self).node_key,
                self.overlay_key == old(self).overlay_key,
                self.options == old(self).options,
                self.nodes == old(self).nodes,
                self.received_broadcasts == old(self).received_broadcasts,
                self.transfers == old(self).transfers,
                self.metrics == old(self).metrics,
            decreases peers@.len() - i,
        {
            self.known_peers.touch(peers[i].0);
            proof {
                assert(ids.take(i as int + 1).drop_last() =~= ids.take(i as int));
                assert(ids.take(i as int + 1).last() == peers@[i as int]@);
            }
            i += 1;
        }
        assert(ids.take(i as int) =~= ids);
    }

    /// The known peers other than `first` and `second`.
    fn peers_excluding(&self, first: &AdnlNodeIdShort, second: &AdnlNodeIdShort) -> (others: Vec<
        AdnlNodeIdShort,
    >)
        ensures
            short_id_views(others@) == excluding(self.known_peers(), first@, second@),
    {
        let mut others: Vec<AdnlNodeIdShort> = Vec::new();
        let count = self.known_peers.len();
        let ghost known = self.known_peers();
        let mut i: usize = 0;
        assert(short_id_views(others@) =~= excluding(known.take(0), first@, second@));
        while i < count
            invariant
                i <= count,
                count == known.len(),
                known == self.known_peers(),
                short_id_views(others@) == excluding(known.take(i as int), first@, second@),
            decreases count - i,
        {
            let id = self.known_peers.get(i);
            let ghost before = others@;
            proof {
                assert(known.take(i as int + 1).drop_last() =~= known.take(i as int));
                assert(known.take(i as int + 1).last() == id@);
            }
            if !bytes32_eq(id, first.as_bytes()) && !bytes32_eq(id, second.as_bytes()) {
                others.push(AdnlNodeIdShort::new(*id));
                assert(short_id_views(others@) =~= short_id_views(before).push(id@));
            }
            i += 1;
        }
        assert(known.take(i as int) =~= known);
        others
    }

    /// Takes a broadcast that came from the peer `peer_id`.
    ///
    /// Its hash joins the remembered ones, or moves to their end. A broadcast
    /// seen before is dropped. A new one is checked against the signature of
    /// its source; if that holds, its payload is for the subscriber and the
    /// packet is to be passed on to some peers, chosen at random among those
    /// that are neither the sender nor the source.
    pub fn receive_broadcast(&mut self, peer_id: &AdnlNodeIdShort, broadcast: &BroadcastSimple) -> (outcome:
        BroadcastOutcome)
        requires
            old(self).wf(),
        ensures
            received_broadcast(*old(self), peer_id@, *broadcast, *final(self), outcome),
    {
        let source = AdnlNodeIdFull::new(broadcast.src).compute_short_id();
        let data_hash = sha256(broadcast.data.as_slice());
        let mut record: Vec<u8> = Vec::new();
        write_broadcast_id(
            &mut record,
            source.as_bytes(),
            &data_hash,
            broadcast.flags,
            broadcast.date,
        );
        assert(record@ =~= broadcast_id_form(
            source@,
            data_hash@,
            broadcast.flags,
            broadcast.date,
        ));
        let hash = sha256(record.as_slice());
        self.metrics.received_broadcasts = raise(self.metrics.received_broadcasts, 1);
        self.metrics.received_bytes = raise(self.metrics.received_bytes, broadcast.data.len());
        if self.received_broadcasts.touch(hash) {
            self.metrics.dropped_broadcasts = raise(self.metrics.dropped_broadcasts, 1);
            self.metrics.forwarded_broadcasts = raise(self.metrics.forwarded_broadcasts, 0);
            return BroadcastOutcome::Duplicate;
        }
        let mut to_sign: Vec<u8> = Vec::new();
        write_broadcast_to_sign(&mut to_sign, &hash, broadcast.date);
        assert(to_sign@ =~= broadcast_to_sign_form(hash@, broadcast.date));
        let signed = match signature_bytes(&broadcast.signature) {
            Some(signature) => ed25519_verify(&broadcast.src, to_sign.as_slice(), &signature),
            None => false,
        };
        if !signed {
            self.metrics.dropped_broadcasts = raise(self.metrics.dropped_broadcasts, 1);
            self.metrics.forwarded_broadcasts = raise(self.metrics.forwarded_broadcasts, 0);
            return BroadcastOutcome::Rejected;
        }
        let neighbours = self.choose_neighbours(peer_id, &source);
        self.metrics.delivered_broadcasts = raise(self.metrics.delivered_broadcasts, 1);
        self.metrics.forwarded_broadcasts = raise(
            self.metrics.forwarded_broadcasts,
            neighbours.len(),
        );
        BroadcastOutcome::Delivered { data: broadcast.data.clone(), source, neighbours }
    }

    /// Chooses at random the peers to pass a packet on to: known peers other
    /// than its sender and its source.
    fn choose_neighbours(&self, sender: &AdnlNodeIdShort, source: &AdnlNodeIdShort) -> (neighbours:
        Vec<AdnlNodeIdShort>)
        requires
            self.wf(),
        ensures
            is_sample(
                short_id_views(neighbours@),
                excluding(self.known_peers(), sender@, source@),
                self.spec_options().broadcast_target_count as int,
            ),
    {
        let others = self.peers_excluding(sender, source);
        let picked = sample_indices(others.len(), self.options.broadcast_target_count);
        let mut neighbours: Vec<AdnlNodeIdShort> = Vec::new();
        let ghost pool = short_id_views(others@);
        proof {
            self.known_peers.lemma_items_distinct();
            lemma_excluding(self.known_peers(), sender@, source@);
        }
        let mut k: usize = 0;
        while k < picked.len()
            invariant
                k <= picked@.len(),
                pool == short_id_views(others@),
                neighbours@.len() == k,
                forall|i: int| 0 <= i < picked@.len() ==> (#[trigger] picked@[i]) < others@.len(),
                forall|i: int|
                    0 <= i < k ==> (#[trigger] neighbours@[i])@ == pool[picked@[i] as int],
            decreases picked@.len() - k,
        {
            neighbours.push(others[picked[k]]);
            k += 1;
        }
        proof {
            let sample = short_id_views(neighbours@);
            assert forall|a: int, b: int|
                0 <= a < sample.len() && 0 <= b < sample.len() && a != b implies sample[a]
                != sample[b] by {
                assert(picked@[a] != picked@[b]);
                assert(sample[a] == pool[picked@[a] as int]);
                assert(sample[b] == pool[picked@[b] as int]);
            }
            assert forall|i: int| 0 <= i < sample.len() implies pool.contains(
                #[trigger] sample[i],
            ) by {
                assert(sample[i] == pool[picked@[i] as int]);
            }
        }
        neighbours
    }

    fn transfer_index(&self, hash: &[u8; 32]) -> (found: Option<usize>)
        requires
            self.wf(),
        ensures
            found matches Some(i) ==> {
                &&& i < self.transfers().len()
                &&& self.transfers()[i as int].hash == hash@
                &&& has_transfer(self.transfers(), hash@)
                &&& transfer_position(self.transfers(), hash@) == i
            },
            found is None ==> !has_transfer(self.transfers(), hash@),
    {
        let mut i: usize = 0;
        while i < self.transfers.len()
            invariant
                self.wf(),
                i <= self.transfers@.len(),
                forall|k: int| 0 <= k < i ==> (#[trigger] self.transfers()[k]).hash != hash@,
            decreases self.transfers@.len() - i,
        {
            if bytes32_eq(&self.transfers[i].hash, hash) {
                proof {
                    assert(self.transfers()[i as int].hash == hash@);
                    lemma_transfer_position(self.transfers(), hash@, i as int);
                }
                return Some(i);
            }
            i += 1;
        }
        None
    }

    /// Takes one symbol of a broadcast sent as symbols, which came from the
    /// peer `peer_id` at the time `now`.
    ///
    /// A symbol that no transfer can take is dropped. The first symbol of a
    /// broadcast starts a transfer, unless as many as allowed are followed
    /// already. A symbol for a transfer that is over is dropped as a
    /// repetition; one that comes after the transfer's deadline fails the
    /// transfer. Any other symbol goes to the transfer's decoder and is to be
    /// passed on to some peers. Once the decoder rebuilds the payload the
    /// transfer is over: completed if the payload has the announced digest
    /// and the symbol's signature holds, failed if not.
    pub fn receive_fec_broadcast(
        &mut self,
        peer_id: &AdnlNodeIdShort,
        broadcast: &BroadcastFec,
        now: u64,
    ) -> (outcome: BroadcastOutcome)
        requires
            old(self).wf(),
        ensures
            received_fec_broadcast(*old(self), peer_id@, *broadcast, now, *final(self), outcome),
    {
        self.metrics.received_broadcasts = raise(self.metrics.received_broadcasts, 1);
        self.metrics.received_bytes = raise(self.metrics.received_bytes, broadcast.data.len());
        let id = match check_fec_symbol(broadcast, self.options.max_fec_broadcast_size) {
            Some(id) => id,
            None => {
                self.metrics.dropped_broadcasts = raise(self.metrics.dropped_broadcasts, 1);
                self.metrics.forwarded_broadcasts = raise(self.metrics.forwarded_broadcasts, 0);
                return BroadcastOutcome::Rejected;
            },
        };
        let source = AdnlNodeIdFull::new(broadcast.src).compute_short_id();
        let mut record: Vec<u8> = Vec::new();
        write_fec_type(&mut record, &broadcast.fec);
        assert(record@ =~= fec_type_form(broadcast.fec));
        let fec_type_hash = sha256(record.as_slice());
        let mut record: Vec<u8> = Vec::new();
        write_broadcast_fec_id(
            &mut record,
            source.as_bytes(),
            &fec_type_hash,
            &broadcast.data_hash,
            broadcast.data_size,
            broadcast.flags,
        );
        assert(record@ =~= broadcast_fec_id_form(
            source@,
            fec_type_hash@,
            broadcast.data_hash@,
            broadcast.data_size,
            broadcast.flags,
        ));
        let hash = sha256(record.as_slice());
        let ghost before = self.transfers();
        let slot = match self.transfer_index(&hash) {
            Some(slot) => {
                match self.transfers[slot].state {
                    TransferState::Receiving => {
                        if self.transfers[slot].data_size != broadcast.data_size {
                            self.metrics.dropped_broadcasts = raise(
                                self.metrics.dropped_broadcasts,
                                1,
                            );
                            self.metrics.forwarded_broadcasts = raise(
                                self.metrics.forwarded_broadcasts,
                                0,
                            );
                            return BroadcastOutcome::Rejected;
                        }
                        if now > self.transfers[slot].deadline {
                            let ghost raw = self.transfers@;
                            self.transfers[slot].state = TransferState::Failed;
                            self.transfers[slot].decoder = None;
                            proof {
                                assert(self.transfers() =~= before.update(
                                    slot as int,
                                    TransferView {
                                        state: TransferState::Failed,
                                        symbols: Seq::empty(),
                                        ..before[slot as int]
                                    },
                                ));
                                assert forall|i: int, j: int|
                                    0 <= i < j < self.transfers().len() implies (
                                #[trigger] self.transfers()[i]).hash != (
                                #[trigger] self.transfers()[j]).hash by {
                                    assert(before[i].hash != before[j].hash);
                                }
                                assert forall|i: int| 0 <= i < self.transfers@.len() implies (
                                #[trigger] self.transfers@[i]).wf() by {
                                    if i != slot {
                                        assert(raw[i].wf());
                                    }
                                }
                            }
                            self.metrics.dropped_broadcasts = raise(
                                self.metrics.dropped_broadcasts,
                                1,
                            );
                            self.metrics.forwarded_broadcasts = raise(
                                self.metrics.forwarded_broadcasts,
                                0,
                            );
                            return BroadcastOutcome::Rejected;
                        }
                    },
                    _ => {
                        self.metrics.dropped_broadcasts = raise(
                            self.metrics.dropped_broadcasts,
                            1,
                        );
                        self.metrics.forwarded_broadcasts = raise(
                            self.metrics.forwarded_broadcasts,
                            0,
                        );
                        return BroadcastOutcome::Duplicate;
                    },
                }
                slot
            },
            None => {
                if self.transfers.len() >= self.options.max_fec_transfers {
                    self.metrics.dropped_broadcasts = raise(self.metrics.dropped_broadcasts, 1);
                    self.metrics.forwarded_broadcasts = raise(
                        self.metrics.forwarded_broadcasts,
                        0,
                    );
                    return BroadcastOutcome::Rejected;
                }
                let decoder = decoder_new(broadcast.data_size, MAX_TRANSMISSION_UNIT as u16);
                let timeout = self.options.fec_transfer_timeout;
                let deadline = if now > u64::MAX - timeout {
                    u64::MAX
                } else {
                    now + timeout
                };
                let ghost raw = self.transfers@;
                self.transfers.push(
                    BroadcastTransfer {
                        hash,
                        data_hash: broadcast.data_hash,
                        data_size: broadcast.data_size,
                        deadline,
                        state: TransferState::Receiving,
                        decoder: Some(decoder),
                    },
                );
                proof {
                    assert(self.transfers() =~= before.push(
                        TransferView {
                            hash: hash@,
                            data_hash: broadcast.data_hash@,
                            data_size: broadcast.data_size,
                            deadline,
                            state: TransferState::Receiving,
                            symbols: Seq::empty(),
                        },
                    ));
                    assert forall|i: int, j: int|
                        0 <= i < j < self.transfers().len() implies (
                    #[trigger] self.transfers()[i]).hash != (#[trigger] self.transfers()[j]).hash by {
                        if j < before.len() {
                            assert(before[i].hash != before[j].hash);
                        } else {
                            assert(before[i].hash != hash@);
                        }
                    }
                    assert forall|i: int| 0 <= i < self.transfers@.len() implies (
                    #[trigger] self.transfers@[i]).wf() by {
                        if i < raw.len() {
                            assert(raw[i].wf());
                        }
                    }
                    lemma_transfer_position(self.transfers(), hash@, before.len() as int);
                }
                self.transfers.len() - 1
            },
        };
        let ghost started = self.transfers();
        let ghost raw = self.transfers@;
        assert(raw[slot as int].wf());
        let ghost symbols = started[slot as int].symbols.push((id, broadcast.data@));
        let mut decoder = self.transfers[slot].decoder.take().unwrap();
        let payload = decoder_decode(&mut decoder, 0, id, broadcast.data.clone());
        let signed = if payload.is_some() {
            let mut to_sign: Vec<u8> = Vec::new();
            write_broadcast_to_sign(&mut to_sign, &hash, broadcast.date);
            assert(to_sign@ =~= broadcast_to_sign_form(hash@, broadcast.date));
            match signature_bytes(&broadcast.signature) {
                Some(signature) => ed25519_verify(&broadcast.src, to_sign.as_slice(), &signature),
                None => false,
            }
        } else {
            false
        };
        let data_hash = self.transfers[slot].data_hash;
        let ghost answer = decoder_answer(started[slot as int].data_size as nat, symbols);
        let state = settle_transfer(&payload, &data_hash, signed);
        self.transfers[slot].state = state;
        if let TransferState::Receiving = state {
            self.transfers[slot].decoder = Some(decoder);
        }
        proof {
            assert(self.transfers() =~= started.update(
                slot as int,
                TransferView {
                    state,
                    symbols: if state == TransferState::Receiving {
                        symbols
                    } else {
                        Seq::empty()
                    },
                    ..started[slot as int]
                },
            ));
            assert forall|i: int, j: int| 0 <= i < j < self.transfers().len() implies (
            #[trigger] self.transfers()[i]).hash != (#[trigger] self.transfers()[j]).hash by {
                assert(started[i].hash != started[j].hash);
            }
            assert forall|i: int| 0 <= i < self.transfers@.len() implies (
            #[trigger] self.transfers@[i]).wf() by {
                if i != slot {
                    assert(raw[i].wf());
                }
            }
        }
        let outcome = match state {
            TransferState::Receiving => {
                let neighbours = self.choose_neighbours(peer_id, &source);
                self.metrics.forwarded_broadcasts = raise(
                    self.metrics.forwarded_broadcasts,
                    neighbours.len(),
                );
                BroadcastOutcome::Pending { neighbours }
            },
            TransferState::Completed => {
                let neighbours = self.choose_neighbours(peer_id, &source);
                self.metrics.delivered_broadcasts = raise(self.metrics.delivered_broadcasts, 1);
                self.metrics.forwarded_broadcasts = raise(
                    self.metrics.forwarded_broadcasts,
                    neighbours.len(),
                );
                BroadcastOutcome::Delivered { data: payload.unwrap(), source, neighbours }
            },
            TransferState::Failed => {
                self.metrics.dropped_broadcasts = raise(self.metrics.dropped_broadcasts, 1);
                self.metrics.forwarded_broadcasts = raise(self.metrics.forwarded_broadcasts, 0);
                BroadcastOutcome::Rejected
            },
        };
        proof {
            assert(symbol_decoded(
                answer,
                started[slot as int].data_size,
                excluding(self.known_peers(), peer_id@, source@),
                self.options.broadcast_target_count as int,
                source@,
                state,
                outcome,
            ));
        }
        outcome
    }

    /// Forgets every transfer whose deadline has passed at `now`, whatever
    /// its state. Returns how many of them were still collecting symbols;
    /// those count as dropped.
    pub fn expire_transfers(&mut self, now: u64) -> (failed: usize)
        requires
            old(self).wf(),
        ensures
            shard_kept(*old(self), *final(self)),
            final(self).known_peers() == old(self).known_peers(),
            final(self).nodes() == old(self).nodes(),
            final(self).seen_broadcasts() == old(self).seen_broadcasts(),
            final(self).transfers() == unexpired(old(self).transfers(), now),
            failed == unfinished(old(self).transfers(), now),
            final(self).spec_metrics() == (OverlayShardMetrics {
                dropped_broadcasts: raised(old(self).spec_metrics().dropped_broadcasts, failed as int),
                ..old(self).spec_metrics()
            }),
    {
        let ghost before = self.transfers();
        let mut kept: Vec<BroadcastTransfer> = Vec::new();
        let mut failed: usize = 0;
        proof {
            assert(before.take(0) =~= Seq::<TransferView>::empty());
            assert(transfer_views(kept@) =~= Seq::<TransferView>::empty());
        }
        let total = self.transfers.len();
        while self.transfers.len() > 0
            invariant
                self.transfers@.len() <= before.len(),
                before.len() == total,
                self.known_peers == old(self).known_peers,
                self.nodes == old(self).nodes,
                self.received_broadcasts == old(self).received_broadcasts,
                self.metrics == old(self).metrics,
                self.overlay_id == old(self).overlay_id,
                self.node_key == old(self).node_key,
                self.overlay_key == old(self).overlay_key,
                self.options == old(self).options,
                transfer_views(self.transfers@) == before.take(self.transfers@.len() as int),
                forall|i: int| 0 <= i < self.transfers@.len() ==> (#[trigger] self.transfers@[i]).wf(),
                forall|i: int| 0 <= i < kept@.len() ==> (#[trigger] kept@[i]).wf(),
                transfer_views(kept@).reverse() == unexpired(
                    before.skip(self.transfers@.len() as int),
                    now,
                ),
                failed == unfinished(before.skip(self.transfers@.len() as int), now),
                failed <= before.len() - self.transfers@.len(),
            decreases self.transfers@.len(),
        {
            let ghost rest = self.transfers@;
            let ghost kept_before = kept@;
            let transfer = self.transfers.pop().unwrap();
            proof {
                let n = rest.len() as int;
                assert(transfer_views(rest)[n - 1] == rest[n - 1]@);
                assert(before.take(n)[n - 1] == before[n - 1]);
                assert(transfer@ == before[n - 1]);
                assert(transfer_views(self.transfers@) =~= before.take(n - 1));
                lemma_unexpired_front(before.skip(n - 1), now);
                assert(before.skip(n - 1).drop_first() =~= before.skip(n));
                assert(before.skip(n - 1).first() == transfer@);
            }
            if transfer.deadline < now {
                if let TransferState::Receiving = transfer.state {
                    failed += 1;
                }
            } else {
                kept.push(transfer);
                proof {
                    assert(transfer_views(kept@) =~= transfer_views(kept_before).push(transfer@));
                    assert(transfer_views(kept@).reverse() =~= seq![transfer@] + transfer_views(
                        kept_before,
                    ).reverse());
                }
            }
        }
        assert(before.skip(0) =~= before);
        while kept.len() > 0
            invariant
                self.known_peers == old(self).known_peers,
                self.nodes == old(self).nodes,
                self.received_broadcasts == old(self).received_broadcasts,
                self.metrics == old(self).metrics,
                self.overlay_id == old(self).overlay_id,
                self.node_key == old(self).node_key,
                self.overlay_key == old(self).overlay_key,
                self.options == old(self).options,
                forall|i: int| 0 <= i < self.transfers@.len() ==> (#[trigger] self.transfers@[i]).wf(),
                forall|i: int| 0 <= i < kept@.len() ==> (#[trigger] kept@[i]).wf(),
                transfer_views(self.transfers@) + transfer_views(kept@).reverse() == unexpired(
                    before,
                    now,
                ),
            decreases kept@.len(),
        {
            let ghost kept_before = kept@;
            let ghost placed = self.transfers@;
            let transfer = kept.pop().unwrap();
            self.transfers.push(transfer);
            proof {
                assert(transfer_views(self.transfers@) =~= transfer_views(placed).push(transfer@));
                assert(transfer_views(kept_before).reverse() =~= seq![transfer@] + transfer_views(
                    kept@,
                ).reverse());
                assert(transfer_views(self.transfers@) + transfer_views(kept@).reverse()
                    =~= transfer_views(placed) + transfer_views(kept_before).reverse());
            }
        }
        proof {
            assert(transfer_views(self.transfers@) =~= unexpired(before, now));
            lemma_unexpired(before, now);
        }
        self.metrics.dropped_broadcasts = raise(self.metrics.dropped_broadcasts, failed);
        failed
    }

    fn node_index(&self, id: &[u8; 32]) -> (found: Option<usize>)
        ensures
            found.is_some() == has_node(self.nodes(), id@),
    {
        let mut i: usize = 0;
        while i < self.nodes.len()
            invariant
                i <= self.nodes@.len(),
                forall|k: int| 0 <= k < i ==> (#[trigger] self.nodes()[k]).id != id@,
            decreases self.nodes@.len() - i,
        {
            if bytes32_eq(&self.nodes[i].id, id) {
                assert(self.nodes()[i as int].id == id@);
                return Some(i);
            }
            i += 1;
        }
        None
    }

    /// Answers an exchange of peers.
    ///
    /// A public shard first takes in the announcements that came with the
    /// query, as far as they are genuine; a private shard ignores them. The
    /// answer is a choice at random among the announcements kept.
    pub fn process_get_random_peers(&mut self, peers: &Vec<Node>) -> (reply: Nodes)
        requires
            old(self).wf(),
        ensures
            exchanged_peers(*old(self), node_views(peers@), *final(self), node_views(reply.nodes@)),
    {
        if !self.is_private() {
            let ghost incoming = node_views(peers@);
            let mut i: usize = 0;
            assert(incoming.take(0) =~= Seq::<NodeView>::empty());
            while i < peers.len()
                invariant
                    i <= peers@.len(),
                    incoming == node_views(peers@),
                    self.wf(),
                    (self.known_peers(), self.nodes()) == merge_nodes(
                        old(self).known_peers(),
                        old(self).nodes(),
                        incoming.take(i as int),
                        old(self).spec_id(),
                    ),
                    self.overlay_id == old(self).overlay_id,
                    self.node_key == old(self).node_key,
                    self.overlay_key == old(self).overlay_key,
                    self.options == old(self).options,
                    self.received_broadcasts == old(self).received_broadcasts,
                    self.transfers == old(self).transfers,
                    self.metrics == old(self).metrics,
                decreases peers@.len() - i,
            {
                let node = &peers[i];
                proof {
                    assert(incoming.take(i as int + 1).drop_last() =~= incoming.take(i as int));
                    assert(incoming.take(i as int + 1).last() == node@);
                }
                if check_node(node, &self.overlay_id) {
                    let short_id = AdnlNodeIdFull::new(node.id).compute_short_id();
                    self.known_peers.touch(short_id.0);
                    if self.node_index(&node.id).is_none() && self.nodes.len() < MAX_OVERLAY_PEERS {
                        let ghost before = self.nodes();
                        self.nodes.push(node.duplicate());
                        proof {
                            assert(self.nodes() =~= before.push(node@));
                            assert forall|a: int| 0 <= a < self.nodes().len() implies (
                            #[trigger] self.nodes()[a]).signature.len() == SIGNATURE_LEN by {
                                if a < before.len() {
                                    assert(before[a].signature.len() == SIGNATURE_LEN);
                                }
                            }
                            assert forall|a: int, b: int|
                                0 <= a < b < self.nodes().len() implies (
                            #[trigger] self.nodes()[a]).id != (#[trigger] self.nodes()[b]).id by {
                                if b < before.len() {
                                    assert(before[a].id != before[b].id);
                                } else {
                                    assert(before[a].id != node@.id);
                                }
                            }
                        }
                    }
                }
                i += 1;
            }
            assert(incoming.take(i as int) =~= incoming);
        }
        let picked = sample_indices(self.nodes.len(), self.options.max_shard_peers_amount);
        let mut nodes: Vec<Node> = Vec::new();
        let ghost pool = self.nodes();
        let mut k: usize = 0;
        while k < picked.len()
            invariant
                k <= picked@.len(),
                pool == node_views(self.nodes@),
                nodes@.len() == k,
                forall|i: int|
                    0 <= i < picked@.len() ==> (#[trigger] picked@[i]) < self.nodes@.len(),
                forall|i: int| 0 <= i < k ==> (#[trigger] nodes@[i])@ == pool[picked@[i] as int],
            decreases picked@.len() - k,
        {
            nodes.push(self.nodes[picked[k]].duplicate());
            k += 1;
        }
        proof {
            let sample = node_views(nodes@);
            assert forall|a: int, b: int|
                0 <= a < sample.len() && 0 <= b < sample.len() && a != b implies sample[a]
                != sample[b] by {
                assert(picked@[a] != picked@[b]);
                assert(sample[a] == pool[picked@[a] as int]);
                assert(sample[b] == pool[picked@[b] as int]);
                if picked@[a] < picked@[b] {
                    assert(pool[picked@[a] as int].id != pool[picked@[b] as int].id);
                } else {
                    assert(pool[picked@[b] as int].id != pool[picked@[a] as int].id);
                }
            }
            assert forall|i: int| 0 <= i < sample.len() implies pool.contains(
                #[trigger] sample[i],
            ) && sample[i].signature.len() == SIGNATURE_LEN by {
                assert(sample[i] == pool[picked@[i] as int]);
                assert(pool[picked@[i] as int].signature.len() == SIGNATURE_LEN);
            }
        }
        Nodes { nodes }
    }
}

/// What no request changes: the shard stays well formed and stays the shard
/// of its overlay, with its keys and options.
pub open spec fn shard_kept(pre: OverlayShard, post: OverlayShard) -> bool {
    &&& post.wf()
    &&& post.spec_id() == pre.spec_id()
    &&& post.spec_node_key() == pre.spec_node_key()
    &&& post.spec_overlay_key() == pre.spec_overlay_key()
    &&& post.spec_is_private() == pre.spec_is_private()
    &&& post.spec_options() == pre.spec_options()
}

/// What `receive_broadcast` makes of a shard and what it answers.
pub open spec fn received_broadcast(
    pre: OverlayShard,
    peer_id: Seq<u8>,
    broadcast: BroadcastSimple,
    post: OverlayShard,
    outcome: BroadcastOutcome,
) -> bool {
    let hash = broadcast_hash(broadcast.src@, broadcast.data@, broadcast.flags, broadcast.date);
    let seen = pre.seen_broadcasts().contains(hash);
    let signed = broadcast_signed(
        broadcast.src@,
        broadcast.data@,
        broadcast.flags,
        broadcast.date,
        broadcast.signature@,
    );
    &&& shard_kept(pre, post)
    &&& post.known_peers() == pre.known_peers()
    &&& post.nodes() == pre.nodes()
    &&& post.transfers() == pre.transfers()
    &&& post.seen_broadcasts() == touched(
        pre.seen_broadcasts(),
        hash,
        pre.spec_options().max_broadcast_log_size as int,
    )
    &&& match outcome {
        BroadcastOutcome::Duplicate => seen,
        BroadcastOutcome::Rejected => !seen && !signed,
        BroadcastOutcome::Delivered { data, source, neighbours } => {
            &&& !seen
            &&& signed
            &&& data@ == broadcast.data@
            &&& source@ == node_short_id(broadcast.src@)
            &&& is_sample(
                short_id_views(neighbours@),
                excluding(pre.known_peers(), peer_id, source@),
                pre.spec_options().broadcast_target_count as int,
            )
        },
        BroadcastOutcome::Pending { .. } => false,
    }
    &&& post.spec_metrics() == metrics_after(
        pre.spec_metrics(),
        broadcast.data@.len() as int,
        counted(outcome),
        forwarded_to(outcome).len() as int,
    )
}

/// What `receive_fec_broadcast` makes of a shard and what it answers.
pub open spec fn received_fec_broadcast(
    pre: OverlayShard,
    peer_id: Seq<u8>,
    broadcast: BroadcastFec,
    now: u64,
    post: OverlayShard,
    outcome: BroadcastOutcome,
) -> bool {
    &&& shard_kept(pre, post)
    &&& post.known_peers() == pre.known_peers()
    &&& post.nodes() == pre.nodes()
    &&& post.seen_broadcasts() == pre.seen_broadcasts()
    &&& post.spec_metrics() == metrics_after(
        pre.spec_metrics(),
        broadcast.data@.len() as int,
        counted(outcome),
        forwarded_to(outcome).len() as int,
    )
    &&& fec_outcome_allowed(
        pre.transfers(),
        pre.known_peers(),
        pre.spec_options(),
        peer_id,
        broadcast,
        now,
        post.transfers(),
        outcome,
    )
}

/// What `process_get_random_peers` makes of a shard and what it answers.
pub open spec fn exchanged_peers(
    pre: OverlayShard,
    incoming: Seq<NodeView>,
    post: OverlayShard,
    reply: Seq<NodeView>,
) -> bool {
    &&& shard_kept(pre, post)
    &&& post.seen_broadcasts() == pre.seen_broadcasts()
    &&& post.transfers() == pre.transfers()
    &&& post.spec_metrics() == pre.spec_metrics()
    &&& (post.known_peers(), post.nodes()) == if pre.spec_is_private() {
        (pre.known_peers(), pre.nodes())
    } else {
        merge_nodes(pre.known_peers(), pre.nodes(), incoming, pre.spec_id())
    }
    &&& is_sample(reply, post.nodes(), pre.spec_options().max_shard_peers_amount as int)
    &&& forall|i: int| 0 <= i < reply.len() ==> (#[trigger] reply[i]).signature.len() == SIGNATURE_LEN
}

/// Where the transfer with the hash `hash` stands once a symbol of it has
/// come: where it stood, or behind all others if it is new.
pub open spec fn transfer_place(before: Seq<TransferView>, hash: Seq<u8>) -> int {
    if has_transfer(before, hash) {
        transfer_position(before, hash)
    } else {
        before.len() as int
    }
}

/// The transfers once a symbol of the transfer with the hash `hash` has
/// come at `now`: a transfer that is new joins the others, collecting
/// symbols until its deadline.
pub open spec fn transfers_started(
    before: Seq<TransferView>,
    hash: Seq<u8>,
    broadcast: BroadcastFec,
    now: u64,
    timeout: u64,
) -> Seq<TransferView> {
    if has_transfer(before, hash) {
        before
    } else {
        before.push(
            TransferView {
                hash,
                data_hash: broadcast.data_hash@,
                data_size: broadcast.data_size,
                deadline: deadline_after(now, timeout),
                state: TransferState::Receiving,
                symbols: Seq::empty(),
            },
        )
    }
}

/// Whether the signature of the symbol `broadcast` holds for the transfer
/// with the hash `hash`.
pub open spec fn symbol_signed(broadcast: BroadcastFec, hash: Seq<u8>) -> bool {
    &&& broadcast.signature@.len() == SIGNATURE_LEN
    &&& ed25519_valid(
        broadcast.src@,
        broadcast_to_sign_form(hash, broadcast.date),
        broadcast.signature@,
    )
}

/// What `receive_fec_broadcast` makes of the transfers `before`, and with
/// which outcome, when the symbol `broadcast` comes from `sender` at `now`.
///
/// A symbol that no transfer can take is rejected. A symbol of a transfer
/// that is over is a repetition. A symbol that announces another payload
/// size than its transfer is rejected, and one that comes after the deadline
/// fails the transfer. The first symbol of a transfer is rejected when as
/// many transfers as allowed are followed. Any other symbol is handed to the
/// decoder of its transfer under its encoding symbol id, and the answer of
/// the decoder to all its symbols decides.
pub open spec fn fec_outcome_allowed(
    before: Seq<TransferView>,
    known_peers: Seq<Seq<u8>>,
    options: OverlayShardOptions,
    sender: Seq<u8>,
    broadcast: BroadcastFec,
    now: u64,
    after: Seq<TransferView>,
    outcome: BroadcastOutcome,
) -> bool {
    let hash = broadcast_fec_hash(
        broadcast.src@,
        broadcast.data_hash@,
        broadcast.data_size,
        broadcast.flags,
        broadcast.fec,
    );
    let source = node_short_id(broadcast.src@);
    let known = has_transfer(before, hash);
    let place = transfer_place(before, hash);
    let started = transfers_started(before, hash, broadcast, now, options.fec_transfer_timeout);
    if !fec_symbol_acceptable(
        broadcast.data_size,
        broadcast.fec,
        broadcast.seqno,
        broadcast.data@.len() as int,
        options.max_fec_broadcast_size,
    ) {
        outcome is Rejected && after == before
    } else if known && before[place].state != TransferState::Receiving {
        outcome is Duplicate && after == before
    } else if known && before[place].data_size != broadcast.data_size {
        outcome is Rejected && after == before
    } else if known && now > before[place].deadline {
        outcome is Rejected && after == before.update(
            place,
            TransferView { state: TransferState::Failed, symbols: Seq::empty(), ..before[place] },
        )
    } else if !known && before.len() >= options.max_fec_transfers {
        outcome is Rejected && after == before
    } else {
        let symbols = started[place].symbols.push(
            (
                symbol_id_of(broadcast.seqno, broadcast.fec.symbols_count) as u32,
                broadcast.data@,
            ),
        );
        let answer = decoder_answer(started[place].data_size as nat, symbols);
        let state = crate::overlay_node::broadcast_fec::settled_state(
            answer,
            started[place].data_hash,
            symbol_signed(broadcast, hash),
        );
        &&& after == started.update(
            place,
            TransferView {
                state,
                symbols: if state == TransferState::Receiving {
                    symbols
                } else {
                    Seq::empty()
                },
                ..started[place]
            },
        )
        &&& symbol_decoded(
            answer,
            started[place].data_size,
            excluding(known_peers, sender, source),
            options.broadcast_target_count as int,
            source,
            state,
            outcome,
        )
    }
}

/// The outcome that goes with the answer of the decoder and the state that
/// follows from it. While the transfer goes on the symbol is pending; when
/// it is completed the decoder's payload is delivered; when it has failed
/// the symbol is rejected. A symbol that is pending or delivered is passed
/// on to a choice of `count` of `others`.
pub open spec fn symbol_decoded(
    answer: Option<Seq<u8>>,
    data_size: u32,
    others: Seq<Seq<u8>>,
    count: int,
    source: Seq<u8>,
    state: TransferState,
    outcome: BroadcastOutcome,
) -> bool {
    match outcome {
        BroadcastOutcome::Duplicate => false,
        BroadcastOutcome::Rejected => state == TransferState::Failed,
        BroadcastOutcome::Pending { neighbours } => {
            &&& state == TransferState::Receiving
            &&& is_sample(short_id_views(neighbours@), others, count)
        },
        BroadcastOutcome::Delivered { data, source: from, neighbours } => {
            &&& state == TransferState::Completed
            &&& answer == Some(data@)
            &&& data@.len() == data_size
            &&& from@ == source
            &&& is_sample(short_id_views(neighbours@), others, count)
        },
    }
}

/// The transfers of `transfers` whose deadline has not passed at `now`, in
/// their order.
pub open spec fn unexpired(transfers: Seq<TransferView>, now: u64) -> Seq<TransferView>
    decreases transfers.len(),
{
    if transfers.len() == 0 {
        Seq::empty()
    } else if transfers.first().deadline < now {
        unexpired(transfers.drop_first(), now)
    } else {
        seq![transfers.first()] + unexpired(transfers.drop_first(), now)
    }
}

/// How many transfers of `transfers` still collect symbols although their
/// deadline has passed at `now`.
pub open spec fn unfinished(transfers: Seq<TransferView>, now: u64) -> nat
    decreases transfers.len(),
{
    if transfers.len() == 0 {
        0
    } else if transfers.first().deadline < now && transfers.first().state
        == TransferState::Receiving {
        unfinished(transfers.drop_first(), now) + 1
    } else {
        unfinished(transfers.drop_first(), now)
    }
}

/// What the first transfer of a run adds to those that remain and to those
/// that count as failed.
pub proof fn lemma_unexpired_front(transfers: Seq<TransferView>, now: u64)
    requires
        transfers.len() > 0,
    ensures
        unexpired(transfers, now) == if transfers.first().deadline < now {
            unexpired(transfers.drop_first(), now)
        } else {
            seq![transfers.first()] + unexpired(transfers.drop_first(), now)
        },
        unfinished(transfers, now) == unfinished(transfers.drop_first(), now) + if transfers.first().deadline
            < now && transfers.first().state == TransferState::Receiving {
            1nat
        } else {
            0nat
        },
        unfinished(transfers.drop_first(), now) <= transfers.len() - 1,
    decreases transfers.len(),
{
    if transfers.len() > 1 {
        lemma_unexpired_front(transfers.drop_first(), now);
    }
}

/// The transfers that remain are among those that were there, each with its
/// own hash still.
pub proof fn lemma_unexpired(transfers: Seq<TransferView>, now: u64)
    requires
        transfers_unique(transfers),
    ensures
        transfers_unique(unexpired(transfers, now)),
        forall|hash: Seq<u8>| #[trigger]
            has_transfer(unexpired(transfers, now), hash) ==> has_transfer(transfers, hash),
    decreases transfers.len(),
{
    if transfers.len() > 0 {
        let rest = transfers.drop_first();
        let first = transfers.first();
        assert forall|i: int, j: int| 0 <= i < j < rest.len() implies (#[trigger] rest[i]).hash != (
        #[trigger] rest[j]).hash by {
            assert(transfers[i + 1].hash != transfers[j + 1].hash);
        }
        lemma_unexpired(rest, now);
        let kept_rest = unexpired(rest, now);
        let kept = unexpired(transfers, now);
        assert forall|hash: Seq<u8>| #[trigger] has_transfer(kept, hash) implies has_transfer(
            transfers,
            hash,
        ) by {
            let k = transfer_position(kept, hash);
            if first.deadline < now {
                assert(has_transfer(kept_rest, hash));
                let m = transfer_position(rest, hash);
                assert(transfers[m + 1].hash == hash);
            } else if k == 0 {
                assert(transfers[0].hash == hash);
            } else {
                assert(kept_rest[k - 1].hash == hash);
                assert(has_transfer(kept_rest, hash));
                let m = transfer_position(rest, hash);
                assert(transfers[m + 1].hash == hash);
            }
        }
        if !(first.deadline < now) {
            assert forall|a: int, b: int| 0 <= a < b < kept.len() implies (#[trigger] kept[a]).hash
                != (#[trigger] kept[b]).hash by {
                if a == 0 {
                    assert(kept_rest[b - 1].hash == kept[b].hash);
                    assert(has_transfer(kept_rest, kept[b].hash));
                    let m = transfer_position(rest, kept[b].hash);
                    assert(transfers[0].hash != transfers[m + 1].hash);
                } else {
                    assert(kept_rest[a - 1].hash != kept_rest[b - 1].hash);
                }
            }
        }
    }
}

/// The hash that identifies the broadcast `broadcast`.
pub open spec fn hash_of(broadcast: BroadcastSimple) -> Seq<u8> {
    broadcast_hash(broadcast.src@, broadcast.data@, broadcast.flags, broadcast.date)
}

/// The hashes of a run of broadcasts.
pub open spec fn hashes_of(broadcasts: Seq<BroadcastSimple>) -> Seq<Seq<u8>> {
    Seq::new(broadcasts.len(), |i: int| hash_of(broadcasts[i]))
}

/// Whether `shards` are the states that a shard goes through, from one that
/// has seen no broadcast, as the broadcasts given come in from the peers
/// given, with the outcomes given.
pub open spec fn is_broadcast_history(
    shards: Seq<OverlayShard>,
    peers: Seq<Seq<u8>>,
    broadcasts: Seq<BroadcastSimple>,
    outcomes: Seq<BroadcastOutcome>,
) -> bool {
    &&& shards.len() == broadcasts.len() + 1
    &&& peers.len() == broadcasts.len()
    &&& outcomes.len() == broadcasts.len()
    &&& shards[0].seen_broadcasts() == Seq::<Seq<u8>>::empty()
    &&& forall|k: int|
        0 <= k < broadcasts.len() ==> received_broadcast(
            #[trigger] shards[k],
            peers[k],
            broadcasts[k],
            shards[k + 1],
            outcomes[k],
        )
}

/// In a history of broadcasts, the shard remembers after `k` of them what
/// the bounded set holds after their hashes, and its options never change.
pub proof fn lemma_history_log(
    shards: Seq<OverlayShard>,
    peers: Seq<Seq<u8>>,
    broadcasts: Seq<BroadcastSimple>,
    outcomes: Seq<BroadcastOutcome>,
    k: int,
)
    requires
        is_broadcast_history(shards, peers, broadcasts, outcomes),
        0 <= k <= broadcasts.len(),
    ensures
        shards[k].spec_options() == shards[0].spec_options(),
        shards[k].seen_broadcasts() == log_after(
            hashes_of(broadcasts).take(k),
            shards[0].spec_options().max_broadcast_log_size as int,
        ),
    decreases k,
{
    let hashes = hashes_of(broadcasts);
    if k > 0 {
        lemma_history_log(shards, peers, broadcasts, outcomes, k - 1);
        assert(received_broadcast(
            shards[k - 1],
            peers[k - 1],
            broadcasts[k - 1],
            shards[k - 1 + 1],
            outcomes[k - 1],
        ));
        assert(hashes.take(k).drop_last() =~= hashes.take(k - 1));
        assert(hashes.take(k).last() == hash_of(broadcasts[k - 1]));
    } else {
        assert(hashes.take(0) =~= Seq::<Seq<u8>>::empty());
    }
}

/// A broadcast is handed to the subscriber at most once: when a broadcast
/// comes in again, it is dropped as a repetition. This holds for as long as
/// the shard remembers: the repetition must be among the next
/// `max_broadcast_log_size` broadcasts.
pub proof fn lemma_broadcast_delivered_once(
    shards: Seq<OverlayShard>,
    peers: Seq<Seq<u8>>,
    broadcasts: Seq<BroadcastSimple>,
    outcomes: Seq<BroadcastOutcome>,
    i: int,
    j: int,
)
    requires
        is_broadcast_history(shards, peers, broadcasts, outcomes),
        0 <= i < j < broadcasts.len(),
        hash_of(broadcasts[i]) == hash_of(broadcasts[j]),
        j - i <= shards[0].spec_options().max_broadcast_log_size,
    ensures
        outcomes[j] is Duplicate,
{
    let hashes = hashes_of(broadcasts);
    let capacity = shards[0].spec_options().max_broadcast_log_size as int;
    lemma_history_log(shards, peers, broadcasts, outcomes, j);
    lemma_recently_used_is_held(hashes.take(j), capacity, i);
    assert(hashes.take(j)[i] == hash_of(broadcasts[j]));
    assert(received_broadcast(shards[j], peers[j], broadcasts[j], shards[j + 1], outcomes[j]));
}

/// Leaving two ids out keeps the others as they are: what remains holds
/// exactly the other ids, and none twice if none was held twice.
pub proof fn lemma_excluding(items: Seq<Seq<u8>>, first: Seq<u8>, second: Seq<u8>)
    requires
        items.no_duplicates(),
    ensures
        excluding(items, first, second).no_duplicates(),
        forall|id: Seq<u8>| #[trigger]
            excluding(items, first, second).contains(id) <==> items.contains(id) && id != first
                && id != second,
    decreases items.len(),
{
    let kept = excluding(items, first, second);
    if items.len() > 0 {
        let rest = items.drop_last();
        let last = items.last();
        lemma_excluding(rest, first, second);
        let kept_rest = excluding(rest, first, second);
        assert forall|id: Seq<u8>| #[trigger]
            kept.contains(id) <==> items.contains(id) && id != first && id != second by {
            if kept.contains(id) {
                let k = choose|k: int| 0 <= k < kept.len() && kept[k] == id;
                if k < kept_rest.len() {
                    assert(kept_rest[k] == id);
                    assert(kept_rest.contains(id));
                    assert(rest.contains(id));
                    let m = choose|m: int| 0 <= m < rest.len() && rest[m] == id;
                    assert(items[m] == id);
                } else {
                    assert(id == last);
                    assert(items[items.len() - 1] == id);
                }
            }
            if items.contains(id) && id != first && id != second {
                let m = choose|m: int| 0 <= m < items.len() && items[m] == id;
                if m < rest.len() {
                    assert(rest[m] == id);
                    assert(rest.contains(id));
                    assert(kept_rest.contains(id));
                    let k = choose|k: int| 0 <= k < kept_rest.len() && kept_rest[k] == id;
                    assert(kept[k] == id);
                } else {
                    assert(kept[kept.len() - 1] == id);
                }
            }
        }
        if !(last == first || last == second) {
            assert(!rest.contains(last)) by {
                if rest.contains(last) {
                    let m = choose|m: int| 0 <= m < rest.len() && rest[m] == last;
                    assert(items[m] == items[items.len() - 1]);
                }
            }
            assert(!kept_rest.contains(last));
            assert forall|a: int, b: int|
                0 <= a < kept.len() && 0 <= b < kept.len() && a != b implies kept[a]
                != kept[b] by {
                if a < kept_rest.len() && b < kept_rest.len() {
                    assert(kept_rest[a] != kept_rest[b]);
                } else if a < kept_rest.len() {
                    assert(kept_rest.contains(kept_rest[a]));
                } else {
                    assert(kept_rest.contains(kept_rest[b]));
                }
            }
        }
    }
}

} // verus!
