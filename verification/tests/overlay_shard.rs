use everscale_crypto::ed25519::{KeyPair, SecretKey};
use tiny_adnl::adnl_node::{AdnlAddressUdp, AdnlNode, PeerContext};
use tiny_adnl::overlay_node::overlay_shard::{
    check_node, signature_bytes, BroadcastOutcome, OverlayShard, OverlayShardOptions,
};
use tiny_adnl::overlay_node::OverlayNode;
use tiny_adnl::proto::{BroadcastFec, Node};
use tiny_adnl::rldp_node::encoder::RaptorQEncoder;
use tiny_adnl::utils::node_id::{AdnlNodeIdShort, OverlayIdShort, StoredAdnlNodeKey};

fn sha256(data: &[u8]) -> [u8; 32] {
    <sha2::Sha256 as sha2::Digest>::digest(data).into()
}

fn options() -> OverlayShardOptions {
    OverlayShardOptions {
        broadcast_target_count: 2,
        max_broadcast_log_size: 10,
        max_shard_peers_amount: 3,
        max_fec_broadcast_size: 10_000,
        max_fec_transfers: 8,
        fec_transfer_timeout: 30,
    }
}

fn shard() -> OverlayShard {
    let key = StoredAdnlNodeKey::from_private_key([1; 32]);
    OverlayShard::new(key, OverlayIdShort::new([7; 32]), None, options())
}

fn first_symbol(seed: u8, payload: &[u8]) -> BroadcastFec {
    let pair = KeyPair::from(&SecretKey::from_bytes([seed; 32]));
    let mut encoder = RaptorQEncoder::with_data(payload);
    let fec = *encoder.params();
    let mut seqno = 0;
    let data = encoder.encode(&mut seqno).unwrap();
    BroadcastFec {
        src: pair.public_key.to_bytes(),
        data_hash: sha256(payload),
        data_size: fec.data_size,
        flags: 0,
        data,
        seqno,
        fec,
        date: 1,
        signature: vec![0; 64],
    }
}

#[test]
fn a_fresh_shard_is_empty() {
    let shard = shard();
    assert_eq!(shard.id(), &OverlayIdShort::new([7; 32]));
    assert!(!shard.is_private());
    assert_eq!(shard.known_peer_count(), 0);
    assert_eq!(shard.node_count(), 0);
    assert_eq!(shard.transfer_count(), 0);
    assert_eq!(shard.seen_broadcast_count(), 0);
    let metrics = shard.metrics();
    assert_eq!(metrics.received_broadcasts, 0);
    assert_eq!(metrics.received_bytes, 0);
    assert_eq!(metrics.delivered_broadcasts, 0);
    assert_eq!(metrics.dropped_broadcasts, 0);
    assert_eq!(metrics.forwarded_broadcasts, 0);
}

#[test]
fn known_peers_are_kept_once() {
    let mut shard = shard();
    let peers: Vec<AdnlNodeIdShort> =
        [1u8, 2, 3, 2, 1, 4].iter().map(|n| AdnlNodeIdShort::new([*n; 32])).collect();
    shard.add_known_peers(&peers);
    assert_eq!(shard.known_peer_count(), 4);
    shard.add_known_peers(&peers[..2]);
    assert_eq!(shard.known_peer_count(), 4);
    shard.add_known_peers(&[]);
    assert_eq!(shard.known_peer_count(), 4);
    assert!(shard.is_known_peer(&peers[5]));
    assert!(!shard.is_known_peer(&AdnlNodeIdShort::new([5; 32])));
}

#[test]
fn expired_transfers_are_forgotten() {
    let mut shard = shard();
    let peer = AdnlNodeIdShort::new([9; 32]);
    for (n, now) in [(1u8, 100u64), (2, 110), (3, 120)] {
        let symbol = first_symbol(2, &vec![n; 2000]);
        let outcome = shard.receive_fec_broadcast(&peer, &symbol, now);
        assert!(matches!(outcome, BroadcastOutcome::Pending { .. }));
    }
    // a transfer of one symbol ends at once, with a signature that does not hold
    let whole = first_symbol(2, &[4u8; 100]);
    assert!(matches!(shard.receive_fec_broadcast(&peer, &whole, 125), BroadcastOutcome::Rejected));
    assert_eq!(shard.transfer_count(), 4);
    assert_eq!(shard.metrics().dropped_broadcasts, 1);

    assert_eq!(shard.expire_transfers(130), 0);
    assert_eq!(shard.transfer_count(), 4);
    assert_eq!(shard.expire_transfers(131), 1);
    assert_eq!(shard.transfer_count(), 3);
    assert_eq!(shard.metrics().dropped_broadcasts, 2);
    // deadlines 140, 150 and, for the failed one, 155
    assert_eq!(shard.expire_transfers(156), 2);
    assert_eq!(shard.transfer_count(), 0);
    assert_eq!(shard.metrics().dropped_broadcasts, 4);
    assert_eq!(shard.expire_transfers(1000), 0);

    // a forgotten transfer may start again
    let symbol = first_symbol(2, &vec![1u8; 2000]);
    let outcome = shard.receive_fec_broadcast(&peer, &symbol, 200);
    assert!(matches!(outcome, BroadcastOutcome::Pending { .. }));
}

#[test]
fn signatures_have_sixty_four_bytes() {
    assert_eq!(signature_bytes(&vec![7u8; 64]), Some([7u8; 64]));
    assert_eq!(signature_bytes(&vec![7u8; 63]), None);
    assert_eq!(signature_bytes(&vec![7u8; 65]), None);
    assert_eq!(signature_bytes(&vec![]), None);
}

#[test]
fn announcements_are_checked_against_overlay_and_signature() {
    let pair = KeyPair::from(&SecretKey::from_bytes([3; 32]));
    let id = pair.public_key.to_bytes();
    let overlay = OverlayIdShort::new([7; 32]);
    let mut boxed = vec![0xc6, 0xb4, 0x13, 0x48];
    boxed.extend_from_slice(&id);
    let mut to_sign = vec![0xe1, 0xa8, 0xd8, 0x03];
    to_sign.extend_from_slice(&sha256(&boxed));
    to_sign.extend_from_slice(&overlay.0);
    to_sign.extend_from_slice(&5i32.to_le_bytes());
    let node = Node { id, overlay: overlay.0, version: 5, signature: pair.sign_raw(&to_sign).to_vec() };
    assert!(check_node(&node, &overlay));
    assert!(!check_node(&node, &OverlayIdShort::new([8; 32])));
    let mut older = node.duplicate();
    older.version = 4;
    assert!(!check_node(&older, &overlay));
    let mut other = node.duplicate();
    other.id = KeyPair::from(&SecretKey::from_bytes([4; 32])).public_key.to_bytes();
    assert!(!check_node(&other, &overlay));
    let mut bad_key = node.duplicate();
    bad_key.id = [0; 32];
    bad_key.id[0] = 2;
    assert!(!check_node(&bad_key, &overlay));
}

#[test]
fn peers_are_found_by_address_and_changed_through_the_overlay_node() {
    let mut adnl = AdnlNode::new();
    let local = adnl.add_key([1; 32], 0).unwrap();
    let mut node = OverlayNode::new(adnl, [0; 32], 0).unwrap();
    let first = StoredAdnlNodeKey::from_private_key([2; 32]);
    let second = StoredAdnlNodeKey::from_private_key([3; 32]);
    let here = AdnlAddressUdp { ip: 10, port: 1 };
    let there = AdnlAddressUdp { ip: 10, port: 2 };
    for (key, address) in [(&first, here), (&second, there)] {
        let added = node.adnl_mut().add_peer(
            PeerContext::Ordinary,
            &local,
            key.id(),
            address,
            *key.full_id(),
        );
        assert_eq!(added, Ok(true));
    }
    assert_eq!(node.adnl().peer_count(), 2);
    assert_eq!(node.adnl().peer_by_address(&local, here), Some(*first.id()));
    assert_eq!(node.adnl().peer_by_address(&local, there), Some(*second.id()));
    assert_eq!(node.adnl().peer_by_address(&local, AdnlAddressUdp { ip: 11, port: 1 }), None);
    assert_eq!(node.adnl().peer_by_address(second.id(), here), None);
    let other = node.adnl_mut().add_key([5; 32], 1).unwrap();
    assert_eq!(node.adnl().key_by_tag(1).unwrap().id(), &other);
    assert!(node.add_public_overlay(&OverlayIdShort::new([7; 32]), options()).1);
}
