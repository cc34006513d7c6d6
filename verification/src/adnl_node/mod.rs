//! The datagram layer's tables: local identities and known peers.
use vstd::prelude::*;
use crate::utils::handshake::{
    build_handshake_packet, decode_frame, handshake_packet, opened_packet, parse_frame,
    parse_handshake_packet, HandshakeError,
};
use crate::utils::node_id::{
    ed25519_public, private_key_part_of, AdnlNodeIdFull, AdnlNodeIdShort, StoredAdnlNodeKey,
};

pub mod seqno;

use self::seqno::ReceivedSeqno;

verus! {

/// A UDP endpoint.
#[derive(Clone, Copy, Debug, PartialEq, Eq, Structural)]
pub struct AdnlAddressUdp {
    pub ip: u32,
    pub port: u16,
}

/// For whose sake a peer is known.
#[derive(Clone, Copy, Debug, PartialEq, Eq, Structural)]
pub enum PeerContext {
    Ordinary,
    PrivateOverlay,
    Dht,
}

/// Why a request to the node was refused.
#[derive(Clone, Copy, Debug, PartialEq, Eq, Structural)]
pub enum AdnlNodeError {
    /// No local identity has the short id given.
    UnknownLocalKey,
    /// No local identity is registered under the tag given.
    UnknownKeyTag,
    /// The tag given already names another identity.
    DuplicatedKeyTag,
    /// No peer with the short id given is known to the local identity.
    UnknownPeer,
    /// The public key of the peer is not the encoding of a curve point.
    BadPeerKey,
}

/// A local identity with the tag it is registered under.
#[derive(Clone, Copy, Debug)]
pub struct KeyEntry {
    pub tag: usize,
    pub key: StoredAdnlNodeKey,
}

/// What the node knows of one peer of one local identity.
#[derive(Clone, Copy, Debug)]
pub struct PeerEntry {
    pub local_id: AdnlNodeIdShort,
    pub peer_id: AdnlNodeIdShort,
    pub full_id: AdnlNodeIdFull,
    pub address: AdnlAddressUdp,
    pub context: PeerContext,
    pub received: ReceivedSeqno,
    pub sent_seqno: u64,
}

/// The content of a [`PeerEntry`].
pub struct PeerView {
    pub local_id: Seq<u8>,
    pub peer_id: Seq<u8>,
    pub full_id: Seq<u8>,
    pub address: AdnlAddressUdp,
    pub context: PeerContext,
    pub received: ReceivedSeqno,
    pub sent_seqno: u64,
}

impl View for PeerEntry {
    type V = PeerView;

    open spec fn view(&self) -> PeerView {
        PeerView {
            local_id: self.local_id@,
            peer_id: self.peer_id@,
            full_id: self.full_id@,
            address: self.address,
            context: self.context,
            received: self.received,
            sent_seqno: self.sent_seqno,
        }
    }
}

impl PeerView {
    /// Whether this entry is the one of `peer_id` as seen by `local_id`.
    pub open spec fn is_for(&self, local_id: Seq<u8>, peer_id: Seq<u8>) -> bool {
        self.local_id == local_id && self.peer_id == peer_id
    }

    /// The entry of a peer that has just become known.
    pub open spec fn fresh(
        context: PeerContext,
        local_id: Seq<u8>,
        peer_id: Seq<u8>,
        address: AdnlAddressUdp,
        full_id: Seq<u8>,
    ) -> PeerView {
        PeerView {
            local_id,
            peer_id,
            full_id,
            address,
            context,
            received: ReceivedSeqno::start(),
            sent_seqno: 0,
        }
    }
}

/// The contents of a run of peer entries.
pub open spec fn peer_views(peers: Seq<PeerEntry>) -> Seq<PeerView> {
    Seq::new(peers.len(), |i: int| peers[i]@)
}

/// Whether `keys` holds an identity with the short id `local_id`.
pub open spec fn has_key(keys: Seq<KeyEntry>, local_id: Seq<u8>) -> bool {
    exists|i: int| 0 <= i < keys.len() && (#[trigger] keys[i]).key.spec_short_id() == local_id
}

/// Whether `keys` holds an identity under `tag`.
pub open spec fn has_tag(keys: Seq<KeyEntry>, tag: usize) -> bool {
    exists|i: int| 0 <= i < keys.len() && (#[trigger] keys[i]).tag == tag
}

/// Whether `peers` holds the entry of `peer_id` as seen by `local_id`.
pub open spec fn has_peer(peers: Seq<PeerView>, local_id: Seq<u8>, peer_id: Seq<u8>) -> bool {
    exists|i: int| 0 <= i < peers.len() && (#[trigger] peers[i]).is_for(local_id, peer_id)
}

/// No tag names two identities.
pub open spec fn tags_unique(keys: Seq<KeyEntry>) -> bool {
    forall|i: int, j: int|
        0 <= i < j < keys.len() ==> (#[trigger] keys[i]).tag != (#[trigger] keys[j]).tag
}

/// No peer of a local identity has two entries.
pub open spec fn peers_unique(peers: Seq<PeerView>) -> bool {
    forall|i: int, j: int|
        0 <= i < j < peers.len() ==> !(#[trigger] peers[i]).is_for(
            (#[trigger] peers[j]).local_id,
            peers[j].peer_id,
        )
}

/// The tables of one node.
#[derive(Debug)]
pub struct AdnlNode {
    keys: Vec<KeyEntry>,
    peers: Vec<PeerEntry>,
}

impl AdnlNode {
    /// The registered identities, in the order of their registration.
    pub closed spec fn keys(&self) -> Seq<KeyEntry> {
        self.keys@
    }

    /// The known peers, in the order in which they became known.
    pub closed spec fn peers(&self) -> Seq<PeerView> {
        peer_views(self.peers@)
    }

    /// A tag names at most one identity, and a peer of a local identity has
    /// at most one entry.
    pub open spec fn wf(&self) -> bool {
        &&& tags_unique(self.keys())
        &&& peers_unique(self.peers())
    }

    /// A node without identities and peers.
    pub fn new() -> (node: Self)
        ensures
            node.wf(),
            node.keys() == Seq::<KeyEntry>::empty(),
            node.peers() == Seq::<PeerView>::empty(),
    {
        let node = AdnlNode { keys: Vec::new(), peers: Vec::new() };
        assert(node.peers() =~= Seq::<PeerView>::empty());
        node
    }

    fn tag_index(&self, tag: usize) -> (found: Option<usize>)
        ensures
            found matches Some(i) ==> i < self.keys().len() && self.keys()[i as int].tag == tag,
            found is None ==> !has_tag(self.keys(), tag),
    {
        let mut i: usize = 0;
        while i < self.keys.len()
            invariant
                i <= self.keys@.len(),
                forall|k: int| 0 <= k < i ==> (#[trigger] self.keys@[k]).tag != tag,
            decreases self.keys@.len() - i,
        {
            if self.keys[i].tag == tag {
                return Some(i);
            }
            i += 1;
        }
        None
    }

    fn key_index(&self, local_id: &AdnlNodeIdShort) -> (found: Option<usize>)
        ensures
            found matches Some(i) ==> i < self.keys().len() && self.keys()[i as int].key.spec_short_id()
                == local_id@ && forall|k: int|
                0 <= k < i ==> (#[trigger] self.keys()[k]).key.spec_short_id() != local_id@,
            found is None ==> !has_key(self.keys(), local_id@),
    {
        let mut i: usize = 0;
        while i < self.keys.len()
            invariant
                i <= self.keys@.len(),
                forall|k: int|
                    0 <= k < i ==> (#[trigger] self.keys@[k]).key.spec_short_id() != local_id@,
            decreases self.keys@.len() - i,
        {
            if self.keys[i].key.id().is(local_id) {
                return Some(i);
            }
            i += 1;
        }
        None
    }

    fn peer_index(&self, local_id: &AdnlNodeIdShort, peer_id: &AdnlNodeIdShort) -> (found: Option<
        usize,
    >)
        ensures
            found matches Some(i) ==> i < self.peers().len() && self.peers()[i as int].is_for(
                local_id@,
                peer_id@,
            ),
            found is None ==> !has_peer(self.peers(), local_id@, peer_id@),
    {
        let mut i: usize = 0;
        while i < self.peers.len()
            invariant
                i <= self.peers@.len(),
                forall|k: int|
                    0 <= k < i ==> !(#[trigger] self.peers()[k]).is_for(local_id@, peer_id@),
            decreases self.peers@.len() - i,
        {
            if self.peers[i].local_id.is(local_id) && self.peers[i].peer_id.is(peer_id) {
                assert(self.peers()[i as int].is_for(local_id@, peer_id@));
                return Some(i);
            }
            i += 1;
        }
        None
    }

    /// Registers the identity of `private_key` under `tag` and returns its
    /// short id. Registering the same identity under its tag again changes
    /// nothing; a tag that names another identity is refused.
    pub fn add_key(&mut self, private_key: [u8; 32], tag: usize) -> (added: Result<
        AdnlNodeIdShort,
        AdnlNodeError,
    >)
        requires
            old(self).wf(),
        ensures
            final(self).wf(),
            final(self).peers() == old(self).peers(),
            ({
                let key = key_of(private_key@);
                if !has_tag(old(self).keys(), tag) {
                    &&& added.is_ok()
                    &&& added.unwrap()@ == key
                    &&& final(self).keys().len() == old(self).keys().len() + 1
                    &&& final(self).keys().drop_last() == old(self).keys()
                    &&& final(self).keys().last().tag == tag
                    &&& final(self).keys().last().key.spec_private_key() == private_key@
                    &&& final(self).keys().last().key.spec_short_id() == key
                } else if key_at_tag(old(self).keys(), tag).key.spec_short_id() == key {
                    &&& added.is_ok()
                    &&& added.unwrap()@ == key
                    &&& final(self).keys() == old(self).keys()
                } else {
                    &&& added == Err::<AdnlNodeIdShort, AdnlNodeError>(
                        AdnlNodeError::DuplicatedKeyTag,
                    )
                    &&& final(self).keys() == old(self).keys()
                }
            }),
    {
        let key = StoredAdnlNodeKey::from_private_key(private_key);
        let id = *key.id();
        match self.tag_index(tag) {
            Some(i) => {
                proof {
                    lemma_key_at_tag(self.keys(), tag, i as int);
                }
                if self.keys[i].key.id().is(&id) {
                    Ok(id)
                } else {
                    Err(AdnlNodeError::DuplicatedKeyTag)
                }
            },
            None => {
                self.keys.push(KeyEntry { tag, key });
                proof {
                    assert(self.keys@.drop_last() =~= old(self).keys@);
                    assert forall|i: int, j: int| 0 <= i < j < self.keys@.len() implies (
                    #[trigger] self.keys@[i]).tag != (#[trigger] self.keys@[j]).tag by {
                        if j < old(self).keys@.len() {
                        } else {
                            assert(old(self).keys@[i].tag != tag);
                        }
                    }
                }
                Ok(id)
            },
        }
    }

    /// The identity registered under `tag`.
    pub fn key_by_tag(&self, tag: usize) -> (key: Result<StoredAdnlNodeKey, AdnlNodeError>)
        requires
            self.wf(),
        ensures
            has_tag(self.keys(), tag) ==> key.is_ok() && key.unwrap() == key_at_tag(
                self.keys(),
                tag,
            ).key,
            !has_tag(self.keys(), tag) ==> key == Err::<StoredAdnlNodeKey, AdnlNodeError>(
                AdnlNodeError::UnknownKeyTag,
            ),
    {
        match self.tag_index(tag) {
            Some(i) => {
                proof {
                    lemma_key_at_tag(self.keys(), tag, i as int);
                }
                Ok(self.keys[i].key)
            },
            None => Err(AdnlNodeError::UnknownKeyTag),
        }
    }

    /// The first registered identity with the short id `local_id`.
    pub fn key_by_id(&self, local_id: &AdnlNodeIdShort) -> (key: Result<
        StoredAdnlNodeKey,
        AdnlNodeError,
    >)
        ensures
            has_key(self.keys(), local_id@) ==> key.is_ok() && key.unwrap().spec_short_id()
                == local_id@ && exists|i: int|
                0 <= i < self.keys().len() && (#[trigger] self.keys()[i]).key == key.unwrap(),
            !has_key(self.keys(), local_id@) ==> key == Err::<StoredAdnlNodeKey, AdnlNodeError>(
                AdnlNodeError::UnknownLocalKey,
            ),
    {
        match self.key_index(local_id) {
            Some(i) => Ok(self.keys[i].key),
            None => Err(AdnlNodeError::UnknownLocalKey),
        }
    }

    /// Makes `peer_id` known to the local identity `local_id`.
    ///
    /// Returns whether the peer is new. A peer that is already known stays as
    /// it is, whatever the other arguments say.
    pub fn add_peer(
        &mut self,
        context: PeerContext,
        local_id: &AdnlNodeIdShort,
        peer_id: &AdnlNodeIdShort,
        address: AdnlAddressUdp,
        full_id: AdnlNodeIdFull,
    ) -> (added: Result<bool, AdnlNodeError>)
        requires
            old(self).wf(),
        ensures
            final(self).wf(),
            final(self).keys() == old(self).keys(),
            (final(self).peers(), added) == add_peer_model(
                old(self).keys(),
                old(self).peers(),
                context,
                local_id@,
                peer_id@,
                address,
                full_id@,
            ),
    {
        if self.key_index(local_id).is_none() {
            return Err(AdnlNodeError::UnknownLocalKey);
        }
        if self.peer_index(local_id, peer_id).is_some() {
            return Ok(false);
        }
        let entry = PeerEntry {
            local_id: *local_id,
            peer_id: *peer_id,
            full_id,
            address,
            context,
            received: ReceivedSeqno::new(),
            sent_seqno: 0,
        };
        self.peers.push(entry);
        proof {
            let before = old(self).peers();
            assert(self.peers() =~= before.push(
                PeerView::fresh(context, local_id@, peer_id@, address, full_id@),
            ));
            assert forall|i: int, j: int| 0 <= i < j < self.peers().len() implies !(
            #[trigger] self.peers()[i]).is_for(
                (#[trigger] self.peers()[j]).local_id,
                self.peers()[j].peer_id,
            ) by {
                if j < before.len() {
                    assert(!before[i].is_for(before[j].local_id, before[j].peer_id));
                } else {
                    assert(!before[i].is_for(local_id@, peer_id@));
                }
            }
        }
        Ok(true)
    }

    /// Forgets `peer_id` as a peer of the local identity `local_id`, with all
    /// that was known of it. Returns whether there was such a peer.
    pub fn delete_peer(&mut self, local_id: &AdnlNodeIdShort, peer_id: &AdnlNodeIdShort) -> (deleted:
        Result<bool, AdnlNodeError>)
        requires
            old(self).wf(),
        ensures
            final(self).wf(),
            final(self).keys() == old(self).keys(),
            (final(self).peers(), deleted) == delete_peer_model(
                old(self).keys(),
                old(self).peers(),
                local_id@,
                peer_id@,
            ),
    {
        if self.key_index(local_id).is_none() {
            return Err(AdnlNodeError::UnknownLocalKey);
        }
        match self.peer_index(local_id, peer_id) {
            Some(i) => {
                proof {
                    lemma_peer_position(self.peers(), local_id@, peer_id@, i as int);
                }
                self.peers.remove(i);
                proof {
                    let before = old(self).peers();
                    assert(self.peers() =~= before.remove(i as int));
                    assert forall|a: int, b: int| 0 <= a < b < self.peers().len() implies !(
                    #[trigger] self.peers()[a]).is_for(
                        (#[trigger] self.peers()[b]).local_id,
                        self.peers()[b].peer_id,
                    ) by {
                        let a0 = if a < i {
                            a
                        } else {
                            a + 1
                        };
                        let b0 = if b < i {
                            b
                        } else {
                            b + 1
                        };
                        assert(!before[a0].is_for(before[b0].local_id, before[b0].peer_id));
                    }
                }
                Ok(true)
            },
            None => Ok(false),
        }
    }

    /// What is known of `peer_id` as a peer of `local_id`.
    pub fn peer(&self, local_id: &AdnlNodeIdShort, peer_id: &AdnlNodeIdShort) -> (entry: Option<
        PeerEntry,
    >)
        requires
            self.wf(),
        ensures
            has_peer(self.peers(), local_id@, peer_id@) ==> entry.is_some() && entry.unwrap()@
                == self.peers()[peer_position(self.peers(), local_id@, peer_id@)],
            !has_peer(self.peers(), local_id@, peer_id@) ==> entry.is_none(),
    {
        match self.peer_index(local_id, peer_id) {
            Some(i) => {
                proof {
                    lemma_peer_position(self.peers(), local_id@, peer_id@, i as int);
                }
                Some(self.peers[i])
            },
            None => None,
        }
    }

    /// Builds the handshake packet that carries `payload` from the local
    /// identity `local_id` to its peer `peer_id`, under a one-time key made
    /// for this packet.
    pub fn seal_packet(&self, local_id: &AdnlNodeIdShort, peer_id: &AdnlNodeIdShort, payload: &[u8]) -> (packet:
        Result<Vec<u8>, AdnlNodeError>)
        requires
            self.wf(),
        ensures
            !has_peer(self.peers(), local_id@, peer_id@) ==> packet.is_err() && packet.unwrap_err()
                == AdnlNodeError::UnknownPeer,
            has_peer(self.peers(), local_id@, peer_id@) ==> {
                let full_id = self.peers()[peer_position(self.peers(), local_id@, peer_id@)].full_id;
                match packet {
                    Ok(bytes) => exists|secret: Seq<u8>| #[trigger]
                        handshake_packet(
                            peer_id@,
                            full_id,
                            private_key_part_of(secret),
                            ed25519_public(secret),
                            payload@,
                        ) == Some(bytes@),
                    Err(error) => error == AdnlNodeError::BadPeerKey && forall|part: Seq<u8>, public: Seq<u8>|
                        (#[trigger] handshake_packet(peer_id@, full_id, part, public, payload@))
                            is None,
                }
            },
    {
        let entry = match self.peer(local_id, peer_id) {
            Some(entry) => entry,
            None => return Err(AdnlNodeError::UnknownPeer),
        };
        let ephemeral = StoredAdnlNodeKey::generate();
        match build_handshake_packet(peer_id, &entry.full_id, &ephemeral, payload) {
            Some(packet) => {
                assert(handshake_packet(
                    peer_id@,
                    entry.full_id@,
                    private_key_part_of(ephemeral.spec_private_key()),
                    ed25519_public(ephemeral.spec_private_key()),
                    payload@,
                ) == Some(packet@));
                Ok(packet)
            },
            None => Err(AdnlNodeError::BadPeerKey),
        }
    }

    /// Opens a handshake packet: finds the local identity that the packet is
    /// for, decrypts the content and checks it against the checksum. Returns
    /// the short id of that identity and the content.
    pub fn open_packet(&self, packet: &[u8]) -> (opened: Result<
        (AdnlNodeIdShort, Vec<u8>),
        HandshakeError,
    >)
        ensures
            match opened_by(self.keys(), packet@) {
                Ok((local_id, content)) => opened.is_ok() && opened.unwrap().0@ == local_id
                    && opened.unwrap().1@ == content,
                Err(error) => opened.is_err() && opened.unwrap_err() == error,
            },
    {
        let frame = match decode_frame(packet) {
            Some(frame) => frame,
            None => return Err(HandshakeError::TooShort),
        };
        let recipient = AdnlNodeIdShort::new(frame.recipient);
        let i = match self.key_index(&recipient) {
            Some(i) => i,
            None => return Err(HandshakeError::UnknownRecipient),
        };
        proof {
            lemma_first_key(self.keys(), recipient@, i as int);
        }
        match parse_handshake_packet(&self.keys[i].key, packet) {
            Ok(content) => Ok((recipient, content)),
            Err(error) => Err(error),
        }
    }

    /// The first peer of `local_id` that is known under `address`.
    pub fn peer_by_address(&self, local_id: &AdnlNodeIdShort, address: AdnlAddressUdp) -> (peer_id:
        Option<AdnlNodeIdShort>)
        ensures
            match peer_id {
                Some(peer_id) => exists|i: int|
                    {
                        &&& 0 <= i < self.peers().len()
                        &&& (#[trigger] self.peers()[i]).is_for(local_id@, peer_id@)
                        &&& self.peers()[i].address == address
                        &&& forall|k: int|
                            0 <= k < i ==> !((#[trigger] self.peers()[k]).local_id == local_id@
                                && self.peers()[k].address == address)
                    },
                None => forall|i: int|
                    0 <= i < self.peers().len() ==> !((#[trigger] self.peers()[i]).local_id
                        == local_id@ && self.peers()[i].address == address),
            },
    {
        let mut i: usize = 0;
        while i < self.peers.len()
            invariant
                i <= self.peers@.len(),
                forall|k: int|
                    0 <= k < i ==> !((#[trigger] self.peers()[k]).local_id == local_id@
                        && self.peers()[k].address == address),
            decreases self.peers@.len() - i,
        {
            let entry = &self.peers[i];
            if entry.local_id.is(local_id) && entry.address.ip == address.ip && entry.address.port
                == address.port {
                assert(self.peers()[i as int].is_for(local_id@, entry.peer_id@));
                return Some(entry.peer_id);
            }
            i += 1;
        }
        None
    }

    /// Number of known peers.
    pub fn peer_count(&self) -> (count: usize)
        ensures
            count == self.peers().len(),
    {
        self.peers.len()
    }

    /// The sequence number for the next packet from `local_id` to `peer_id`:
    /// one more than the last, stopping at the largest number.
    pub fn next_seqno(&mut self, local_id: &AdnlNodeIdShort, peer_id: &AdnlNodeIdShort) -> (seqno:
        Result<u64, AdnlNodeError>)
        requires
            old(self).wf(),
        ensures
            final(self).wf(),
            final(self).keys() == old(self).keys(),
            !has_peer(old(self).peers(), local_id@, peer_id@) ==> {
                &&& seqno == Err::<u64, AdnlNodeError>(AdnlNodeError::UnknownPeer)
                &&& final(self).peers() == old(self).peers()
            },
            has_peer(old(self).peers(), local_id@, peer_id@) ==> {
                let i = peer_position(old(self).peers(), local_id@, peer_id@);
                let entry = old(self).peers()[i];
                let next = if entry.sent_seqno == u64::MAX {
                    u64::MAX
                } else {
                    (entry.sent_seqno + 1) as u64
                };
                &&& seqno == Ok::<u64, AdnlNodeError>(next)
                &&& final(self).peers() == old(self).peers().update(
                    i,
                    PeerView { sent_seqno: next, ..entry },
                )
            },
    {
        match self.peer_index(local_id, peer_id) {
            Some(i) => {
                proof {
                    lemma_peer_position(self.peers(), local_id@, peer_id@, i as int);
                }
                let mut entry = self.peers[i];
                if entry.sent_seqno < u64::MAX {
                    entry.sent_seqno = entry.sent_seqno + 1;
                }
                self.peers.set(i, entry);
                proof {
                    let before = old(self).peers();
                    assert(self.peers() =~= before.update(i as int, entry@));
                    assert forall|a: int, b: int| 0 <= a < b < self.peers().len() implies !(
                    #[trigger] self.peers()[a]).is_for(
                        (#[trigger] self.peers()[b]).local_id,
                        self.peers()[b].peer_id,
                    ) by {
                        assert(!before[a].is_for(before[b].local_id, before[b].peer_id));
                    }
                }
                Ok(entry.sent_seqno)
            },
            None => Err(AdnlNodeError::UnknownPeer),
        }
    }

    /// Decides whether a packet from `peer_id` with the sequence number
    /// `seqno` is taken, and remembers it if so.
    pub fn accept_seqno(
        &mut self,
        local_id: &AdnlNodeIdShort,
        peer_id: &AdnlNodeIdShort,
        seqno: u64,
    ) -> (accepted: Result<bool, AdnlNodeError>)
        requires
            old(self).wf(),
        ensures
            final(self).wf(),
            final(self).keys() == old(self).keys(),
            !has_peer(old(self).peers(), local_id@, peer_id@) ==> {
                &&& accepted == Err::<bool, AdnlNodeError>(AdnlNodeError::UnknownPeer)
                &&& final(self).peers() == old(self).peers()
            },
            has_peer(old(self).peers(), local_id@, peer_id@) ==> {
                let i = peer_position(old(self).peers(), local_id@, peer_id@);
                let entry = old(self).peers()[i];
                &&& accepted == Ok::<bool, AdnlNodeError>(entry.received.accepts(seqno))
                &&& final(self).peers() == old(self).peers().update(
                    i,
                    PeerView { received: entry.received.after(seqno), ..entry },
                )
            },
    {
        match self.peer_index(local_id, peer_id) {
            Some(i) => {
                proof {
                    lemma_peer_position(self.peers(), local_id@, peer_id@, i as int);
                }
                let mut entry = self.peers[i];
                let accepted = entry.received.accept(seqno);
                self.peers.set(i, entry);
                proof {
                    let before = old(self).peers();
                    assert(self.peers() =~= before.update(i as int, entry@));
                    assert forall|a: int, b: int| 0 <= a < b < self.peers().len() implies !(
                    #[trigger] self.peers()[a]).is_for(
                        (#[trigger] self.peers()[b]).local_id,
                        self.peers()[b].peer_id,
                    ) by {
                        assert(!before[a].is_for(before[b].local_id, before[b].peer_id));
                    }
                }
                Ok(accepted)
            },
            None => Err(AdnlNodeError::UnknownPeer),
        }
    }
}

/// Short id of the identity that belongs to `private_key`.
pub open spec fn key_of(private_key: Seq<u8>) -> Seq<u8> {
    crate::utils::node_id::node_short_id(crate::utils::node_id::ed25519_public(private_key))
}

/// Where the first identity with the short id `local_id` stands.
pub open spec fn first_key(keys: Seq<KeyEntry>, local_id: Seq<u8>) -> int {
    choose|i: int|
        0 <= i < keys.len() && (#[trigger] keys[i]).key.spec_short_id() == local_id && forall|
            k: int,
        |
            0 <= k < i ==> (#[trigger] keys[k]).key.spec_short_id() != local_id
}

/// The first identity with a short id is the one before which no identity
/// has that id.
pub proof fn lemma_first_key(keys: Seq<KeyEntry>, local_id: Seq<u8>, i: int)
    requires
        0 <= i < keys.len(),
        keys[i].key.spec_short_id() == local_id,
        forall|k: int| 0 <= k < i ==> (#[trigger] keys[k]).key.spec_short_id() != local_id,
    ensures
        has_key(keys, local_id),
        first_key(keys, local_id) == i,
{
    let j = first_key(keys, local_id);
    if j < i {
        assert(keys[j].key.spec_short_id() != local_id);
    } else if i < j {
        assert(keys[i].key.spec_short_id() != local_id);
    }
}

/// What a node with the identities `keys` finds in the handshake packet
/// `bytes`: the short id of the identity that the packet is for, and the
/// content.
pub open spec fn opened_by(keys: Seq<KeyEntry>, bytes: Seq<u8>) -> Result<
    (Seq<u8>, Seq<u8>),
    HandshakeError,
> {
    match parse_frame(bytes) {
        None => Err(HandshakeError::TooShort),
        Some(frame) => if !has_key(keys, frame.recipient) {
            Err(HandshakeError::UnknownRecipient)
        } else {
            let key = keys[first_key(keys, frame.recipient)].key;
            match opened_packet(
                frame.recipient,
                private_key_part_of(key.spec_private_key()),
                bytes,
            ) {
                Ok(content) => Ok((frame.recipient, content)),
                Err(error) => Err(error),
            }
        },
    }
}

/// The identity registered under `tag`.
pub open spec fn key_at_tag(keys: Seq<KeyEntry>, tag: usize) -> KeyEntry {
    keys[choose|i: int| 0 <= i < keys.len() && (#[trigger] keys[i]).tag == tag]
}

/// Where the entry of `peer_id` as seen by `local_id` stands.
pub open spec fn peer_position(peers: Seq<PeerView>, local_id: Seq<u8>, peer_id: Seq<u8>) -> int {
    choose|i: int| 0 <= i < peers.len() && (#[trigger] peers[i]).is_for(local_id, peer_id)
}

/// What `add_peer` makes of the peer table and what it answers.
pub open spec fn add_peer_model(
    keys: Seq<KeyEntry>,
    peers: Seq<PeerView>,
    context: PeerContext,
    local_id: Seq<u8>,
    peer_id: Seq<u8>,
    address: AdnlAddressUdp,
    full_id: Seq<u8>,
) -> (Seq<PeerView>, Result<bool, AdnlNodeError>) {
    if !has_key(keys, local_id) {
        (peers, Err(AdnlNodeError::UnknownLocalKey))
    } else if has_peer(peers, local_id, peer_id) {
        (peers, Ok(false))
    } else {
        (peers.push(PeerView::fresh(context, local_id, peer_id, address, full_id)), Ok(true))
    }
}

/// What `delete_peer` makes of the peer table and what it answers.
pub open spec fn delete_peer_model(
    keys: Seq<KeyEntry>,
    peers: Seq<PeerView>,
    local_id: Seq<u8>,
    peer_id: Seq<u8>,
) -> (Seq<PeerView>, Result<bool, AdnlNodeError>) {
    if !has_key(keys, local_id) {
        (peers, Err(AdnlNodeError::UnknownLocalKey))
    } else if has_peer(peers, local_id, peer_id) {
        (peers.remove(peer_position(peers, local_id, peer_id)), Ok(true))
    } else {
        (peers, Ok(false))
    }
}

/// Adding a peer is idempotent: a second request with the same arguments
/// answers that the peer is not new, or repeats the refusal, and leaves the
/// peer table as the first request left it.
pub proof fn lemma_add_peer_idempotent(
    keys: Seq<KeyEntry>,
    peers: Seq<PeerView>,
    context: PeerContext,
    local_id: Seq<u8>,
    peer_id: Seq<u8>,
    address: AdnlAddressUdp,
    full_id: Seq<u8>,
)
    ensures
        ({
            let (once, first) = add_peer_model(
                keys,
                peers,
                context,
                local_id,
                peer_id,
                address,
                full_id,
            );
            let (twice, second) = add_peer_model(
                keys,
                once,
                context,
                local_id,
                peer_id,
                address,
                full_id,
            );
            &&& twice == once
            &&& first.is_ok() ==> second == Ok::<bool, AdnlNodeError>(false)
            &&& first.is_err() ==> second == first && once == peers
        }),
{
    let (once, first) = add_peer_model(keys, peers, context, local_id, peer_id, address, full_id);
    if has_key(keys, local_id) && !has_peer(peers, local_id, peer_id) {
        assert(once[once.len() - 1].is_for(local_id, peer_id));
    }
}

/// Deleting a peer is idempotent as well: a second request finds nothing,
/// says so, and changes nothing.
pub proof fn lemma_delete_peer_idempotent(
    keys: Seq<KeyEntry>,
    peers: Seq<PeerView>,
    local_id: Seq<u8>,
    peer_id: Seq<u8>,
)
    requires
        peers_unique(peers),
        has_key(keys, local_id),
    ensures
        ({
            let (once, _) = delete_peer_model(keys, peers, local_id, peer_id);
            delete_peer_model(keys, once, local_id, peer_id) == (
                once,
                Ok::<bool, AdnlNodeError>(false),
            )
        }),
{
    let (once, _) = delete_peer_model(keys, peers, local_id, peer_id);
    if has_peer(peers, local_id, peer_id) {
        let place = peer_position(peers, local_id, peer_id);
        lemma_peer_position(peers, local_id, peer_id, place);
        if has_peer(once, local_id, peer_id) {
            let k = peer_position(once, local_id, peer_id);
            let k0 = if k < place {
                k
            } else {
                k + 1
            };
            assert(once[k] == peers[k0]);
            if k0 < place {
                assert(!peers[k0].is_for(peers[place].local_id, peers[place].peer_id));
            } else {
                assert(!peers[place].is_for(peers[k0].local_id, peers[k0].peer_id));
            }
        }
    }
}

/// With unique tags, the identity under a tag is the one found at any place
/// that carries the tag.
pub proof fn lemma_key_at_tag(keys: Seq<KeyEntry>, tag: usize, i: int)
    requires
        tags_unique(keys),
        0 <= i < keys.len(),
        keys[i].tag == tag,
    ensures
        has_tag(keys, tag),
        key_at_tag(keys, tag) == keys[i],
{
    let j = choose|j: int| 0 <= j < keys.len() && (#[trigger] keys[j]).tag == tag;
    if j < i {
        assert(keys[j].tag != keys[i].tag);
    } else if i < j {
        assert(keys[i].tag != keys[j].tag);
    }
}

/// With unique peers, the position of a peer is the one place that holds it.
pub proof fn lemma_peer_position(peers: Seq<PeerView>, local_id: Seq<u8>, peer_id: Seq<u8>, i: int)
    requires
        peers_unique(peers),
        0 <= i < peers.len(),
        peers[i].is_for(local_id, peer_id),
    ensures
        has_peer(peers, local_id, peer_id),
        peer_position(peers, local_id, peer_id) == i,
{
    let j = peer_position(peers, local_id, peer_id);
    if j < i {
        assert(!peers[j].is_for(peers[i].local_id, peers[i].peer_id));
    } else if i < j {
        assert(!peers[i].is_for(peers[j].local_id, peers[j].peer_id));
    }
}

} // verus!
