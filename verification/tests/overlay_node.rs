use everscale_crypto::ed25519::{KeyPair, SecretKey};
use tiny_adnl::adnl_node::{AdnlAddressUdp, AdnlNode};
use tiny_adnl::overlay_node::overlay_shard::{
    BroadcastOutcome, OverlayShardMetrics, OverlayShardOptions, MAX_OVERLAY_PEERS,
};
use tiny_adnl::overlay_node::{OverlayNode, OverlayNodeError};
use tiny_adnl::proto::{
    Broadcast, BroadcastFec, BroadcastSimple, Node, Nodes, OverlayMessage, Query,
};
use tiny_adnl::rldp_node::encoder::{RaptorQEncoder, RaptorQFecType};
use tiny_adnl::subscriber::{QueryBundleConsumingResult, QueryBundleStep, QueryConsumingResult};
use tiny_adnl::utils::node_id::{AdnlNodeIdShort, OverlayIdShort, StoredAdnlNodeKey};
use tiny_adnl::utils::serialize;

fn sha256(data: &[u8]) -> [u8; 32] {
    <sha2::Sha256 as sha2::Digest>::digest(data).into()
}

fn options() -> OverlayShardOptions {
    OverlayShardOptions {
        broadcast_target_count: 5,
        max_broadcast_log_size: 100,
        max_shard_peers_amount: 20,
        max_fec_broadcast_size: 1_000_000,
        max_fec_transfers: 4,
        fec_transfer_timeout: 60,
    }
}

fn overlay_node(seed: u8) -> (OverlayNode, StoredAdnlNodeKey) {
    let mut adnl = AdnlNode::new();
    adnl.add_key([seed; 32], 0).unwrap();
    let key = adnl.key_by_tag(0).unwrap();
    (OverlayNode::new(adnl, [0x55; 32], 0).unwrap(), key)
}

fn key_pair(seed: u8) -> KeyPair {
    KeyPair::from(&SecretKey::from_bytes([seed; 32]))
}

fn short_id(public_key: &[u8; 32]) -> [u8; 32] {
    let mut boxed = vec![0xc6, 0xb4, 0x13, 0x48];
    boxed.extend_from_slice(public_key);
    sha256(&boxed)
}

fn signed_broadcast(seed: u8, data: &[u8], flags: i32, date: i32) -> BroadcastSimple {
    let pair = key_pair(seed);
    let src = pair.public_key.to_bytes();
    let mut id = 0x51fd789au32.to_le_bytes().to_vec();
    id.extend_from_slice(&short_id(&src));
    id.extend_from_slice(&sha256(data));
    id.extend_from_slice(&flags.to_le_bytes());
    id.extend_from_slice(&date.to_le_bytes());
    let hash = sha256(&id);
    let mut to_sign = 0xfa374e7cu32.to_le_bytes().to_vec();
    to_sign.extend_from_slice(&hash);
    to_sign.extend_from_slice(&date.to_le_bytes());
    BroadcastSimple {
        src,
        flags,
        data: data.to_vec(),
        date,
        signature: pair.sign_raw(&to_sign).to_vec(),
    }
}

fn signed_node(seed: u8, overlay: &OverlayIdShort, version: i32) -> Node {
    let pair = key_pair(seed);
    let id = pair.public_key.to_bytes();
    let mut to_sign = 0x03d8a8e1u32.to_le_bytes().to_vec();
    to_sign.extend_from_slice(&short_id(&id));
    to_sign.extend_from_slice(overlay.as_bytes());
    to_sign.extend_from_slice(&version.to_le_bytes());
    Node { id, overlay: overlay.0, version, signature: pair.sign_raw(&to_sign).to_vec() }
}

fn fec_symbols(seed: u8, payload: &[u8], count: usize, date: i32) -> Vec<BroadcastFec> {
    let pair = key_pair(seed);
    let src = pair.public_key.to_bytes();
    let mut encoder = RaptorQEncoder::with_data(payload);
    let fec: RaptorQFecType = *encoder.params();
    let data_hash = sha256(payload);
    let mut fec_type = 0x8b93a7e0u32.to_le_bytes().to_vec();
    fec_type.extend_from_slice(&fec.data_size.to_le_bytes());
    fec_type.extend_from_slice(&fec.symbol_size.to_le_bytes());
    fec_type.extend_from_slice(&fec.symbols_count.to_le_bytes());
    let mut id = 0xfb3155a6u32.to_le_bytes().to_vec();
    id.extend_from_slice(&short_id(&src));
    id.extend_from_slice(&sha256(&fec_type));
    id.extend_from_slice(&data_hash);
    id.extend_from_slice(&fec.data_size.to_le_bytes());
    id.extend_from_slice(&0i32.to_le_bytes());
    let hash = sha256(&id);
    let mut to_sign = 0xfa374e7cu32.to_le_bytes().to_vec();
    to_sign.extend_from_slice(&hash);
    to_sign.extend_from_slice(&date.to_le_bytes());
    let signature = pair.sign_raw(&to_sign).to_vec();
    let mut symbols = Vec::new();
    let mut seqno = 0;
    for _ in 0..count {
        let data = encoder.encode(&mut seqno).unwrap();
        symbols.push(BroadcastFec {
            src,
            data_hash,
            data_size: fec.data_size,
            flags: 0,
            data,
            seqno,
            fec,
            date,
            signature: signature.clone(),
        });
        seqno += 1;
    }
    symbols
}

fn message(overlay: &OverlayIdShort, broadcast: Broadcast) -> Option<(OverlayMessage, Broadcast)> {
    Some((OverlayMessage { overlay: overlay.0 }, broadcast))
}

fn peer(n: u8) -> AdnlNodeIdShort {
    AdnlNodeIdShort::new([n; 32])
}

#[test]
fn new_needs_a_registered_key_tag() {
    let mut adnl = AdnlNode::new();
    adnl.add_key([1; 32], 3).unwrap();
    assert_eq!(
        OverlayNode::new(adnl, [0; 32], 4).unwrap_err(),
        OverlayNodeError::UnknownKeyTag
    );
    let (node, key) = overlay_node(1);
    assert_eq!(node.adnl().key_by_tag(0).unwrap().id(), key.id());
    assert!(node.metrics().is_empty());
}

#[test]
fn add_public_overlay_is_idempotent() {
    let (mut node, key) = overlay_node(1);
    let id = OverlayIdShort::new([7; 32]);
    let (shard, new) = node.add_public_overlay(&id, options());
    assert!(new);
    assert_eq!(shard.id(), &id);
    assert!(!shard.is_private());
    assert_eq!(shard.signing_key().id(), key.id());
    assert_eq!(shard.options(), &options());
    assert_eq!(shard.known_peer_count(), 0);
    let other = OverlayShardOptions { broadcast_target_count: 1, ..options() };
    let (shard, new) = node.add_public_overlay(&id, other);
    assert!(!new);
    assert_eq!(shard.options(), &options());
    assert_eq!(node.metrics().len(), 1);
}

#[test]
fn delete_public_overlay_is_refused() {
    let (mut node, _) = overlay_node(1);
    let id = OverlayIdShort::new([7; 32]);
    node.add_public_overlay(&id, options());
    for _ in 0..3 {
        assert_eq!(
            node.delete_private_overlay(&id),
            Err(OverlayNodeError::DeletingPublicOverlay)
        );
        assert!(node.get_overlay_shard(&id).is_ok());
        node.add_public_overlay(&id, options());
    }
    assert_eq!(node.metrics().len(), 1);
}

#[test]
fn private_overlay_is_seeded_and_deleted() {
    let (mut node, _) = overlay_node(1);
    let overlay_key = StoredAdnlNodeKey::from_private_key([9; 32]);
    let id = OverlayIdShort::new([8; 32]);
    let peers = [peer(1), peer(2), peer(1), peer(3)];
    assert!(node.add_private_overlay(&id, &overlay_key, &peers, options()));
    {
        let shard = node.get_overlay_shard(&id).unwrap();
        assert!(shard.is_private());
        assert_eq!(shard.signing_key().id(), overlay_key.id());
        assert_eq!(shard.known_peer_count(), 3);
        assert!(shard.is_known_peer(&peer(2)));
        assert!(!shard.is_known_peer(&peer(4)));
    }
    assert!(!node.add_private_overlay(&id, &overlay_key, &[peer(4)], options()));
    assert!(!node.get_overlay_shard(&id).unwrap().is_known_peer(&peer(4)));
    assert_eq!(node.delete_private_overlay(&id), Ok(true));
    assert_eq!(node.get_overlay_shard(&id).unwrap_err(), OverlayNodeError::UnknownOverlay);
    assert_eq!(node.delete_private_overlay(&id), Ok(false));
}

#[test]
fn deleting_keeps_the_other_overlays_findable() {
    let (mut node, _) = overlay_node(1);
    let overlay_key = StoredAdnlNodeKey::from_private_key([9; 32]);
    let ids: Vec<OverlayIdShort> = (10..15).map(|n| OverlayIdShort::new([n; 32])).collect();
    for (n, id) in ids.iter().enumerate() {
        let peers: Vec<AdnlNodeIdShort> = (0..n as u8).map(peer).collect();
        assert!(node.add_private_overlay(id, &overlay_key, &peers, options()));
    }
    assert_eq!(node.delete_private_overlay(&ids[1]), Ok(true));
    assert_eq!(node.delete_private_overlay(&ids[4]), Ok(true));
    assert_eq!(node.delete_private_overlay(&ids[0]), Ok(true));
    for n in [2usize, 3] {
        let shard = node.get_overlay_shard(&ids[n]).unwrap();
        assert_eq!(shard.id(), &ids[n]);
        assert_eq!(shard.known_peer_count(), n);
    }
    for n in [0usize, 1, 4] {
        assert!(node.get_overlay_shard(&ids[n]).is_err());
    }
    let listed: Vec<OverlayIdShort> = node.metrics().into_iter().map(|(id, _)| id).collect();
    assert_eq!(listed.len(), 2);
    assert!(listed.contains(&ids[2]) && listed.contains(&ids[3]));
}

#[test]
fn subscribers_are_never_overwritten() {
    let (mut node, _) = overlay_node(1);
    let id = OverlayIdShort::new([7; 32]);
    assert_eq!(node.subscriber(&id), None);
    assert!(node.add_subscriber(id, 11));
    assert!(!node.add_subscriber(id, 12));
    assert_eq!(node.subscriber(&id), Some(11));
    assert!(node.add_subscriber(OverlayIdShort::new([8; 32]), 12));
}

#[test]
fn private_peers_are_added_and_deleted() {
    let (mut node, key) = overlay_node(1);
    let first = StoredAdnlNodeKey::from_private_key([2; 32]);
    let second = StoredAdnlNodeKey::from_private_key([3; 32]);
    let address = AdnlAddressUdp { ip: 1, port: 2 };
    let given = [
        (address, *first.full_id()),
        (address, *second.full_id()),
        (address, *first.full_id()),
    ];
    let added = node.add_private_peers(key.id(), &given).unwrap();
    assert_eq!(added, vec![*first.id(), *second.id()]);
    assert_eq!(node.adnl().peer_count(), 2);
    assert_eq!(node.add_private_peers(key.id(), &given).unwrap(), Vec::new());
    let entry = node.adnl().peer(key.id(), first.id()).unwrap();
    assert_eq!(entry.context, tiny_adnl::adnl_node::PeerContext::PrivateOverlay);
    assert_eq!(entry.address, address);

    let stranger = peer(9);
    assert_eq!(
        node.add_private_peers(&stranger, &given).unwrap_err(),
        OverlayNodeError::UnknownLocalKey
    );
    assert_eq!(node.add_private_peers(&stranger, &[]).unwrap(), Vec::new());
    assert_eq!(
        node.delete_private_peers(&stranger, &[*first.id()]).unwrap_err(),
        OverlayNodeError::UnknownLocalKey
    );
    assert_eq!(node.delete_private_peers(&stranger, &[]), Ok(false));

    assert_eq!(node.delete_private_peers(key.id(), &[peer(8)]), Ok(false));
    assert_eq!(node.delete_private_peers(key.id(), &[peer(8), *first.id(), *first.id()]), Ok(true));
    assert_eq!(node.adnl().peer_count(), 1);
    assert_eq!(node.delete_private_peers(key.id(), &[*second.id()]), Ok(true));
    assert_eq!(node.adnl().peer_count(), 0);
}

#[test]
fn overlay_ids_are_stable() {
    let (node, _) = overlay_node(1);
    let (other, _) = overlay_node(2);
    let full = node.compute_overlay_id(0);
    let mut record = 0x4d9ed329u32.to_le_bytes().to_vec();
    record.extend_from_slice(&0i32.to_le_bytes());
    record.extend_from_slice(&(1u64 << 63).to_le_bytes());
    record.extend_from_slice(&[0x55; 32]);
    assert_eq!(full.0, sha256(&record));
    let mut name = vec![0xcb, 0x45, 0xba, 0x34, 32];
    name.extend_from_slice(&full.0);
    name.extend_from_slice(&[0, 0, 0]);
    assert_eq!(node.compute_overlay_short_id(0).0, sha256(&name));
    assert_eq!(node.compute_overlay_short_id(0), other.compute_overlay_short_id(0));
    assert_eq!(node.compute_overlay_short_id(0), full.compute_short_id());
    assert_ne!(node.compute_overlay_short_id(0), node.compute_overlay_short_id(-1));
    assert_eq!(MAX_OVERLAY_PEERS, 65536);
}

#[test]
fn custom_messages_that_are_not_consumed_or_refused() {
    let (mut node, _) = overlay_node(1);
    let id = OverlayIdShort::new([7; 32]);
    let broadcast = signed_broadcast(2, b"x", 0, 1);
    assert!(node.try_consume_custom(&peer(1), &None, 0).unwrap().is_none());
    let unknown = message(&id, Broadcast::Broadcast(signed_broadcast(2, b"x", 0, 1)));
    assert_eq!(
        node.try_consume_custom(&peer(1), &unknown, 0).unwrap_err(),
        OverlayNodeError::UnknownOverlay
    );
    node.add_public_overlay(&id, options());
    assert_eq!(
        node.try_consume_custom(&peer(1), &message(&id, Broadcast::Other), 0).unwrap_err(),
        OverlayNodeError::UnsupportedOverlayBroadcastMessage
    );
    assert_eq!(node.metrics()[0].1.received_broadcasts, 0);
    let known = message(&id, Broadcast::Broadcast(broadcast));
    assert!(node.try_consume_custom(&peer(1), &known, 0).unwrap().is_some());
}


fn delivered(outcome: Option<BroadcastOutcome>) -> (Vec<u8>, AdnlNodeIdShort, Vec<AdnlNodeIdShort>) {
    match outcome {
        Some(BroadcastOutcome::Delivered { data, source, neighbours }) => (data, source, neighbours),
        other => panic!("not delivered: {:?}", other),
    }
}

#[test]
fn a_broadcast_is_delivered_once_in_a_triangle() {
    let (mut a, a_key) = overlay_node(1);
    let (mut b, b_key) = overlay_node(2);
    let (mut c, c_key) = overlay_node(3);
    let id = a.compute_overlay_short_id(0);
    let everyone = [*a_key.id(), *b_key.id(), *c_key.id()];
    for (node, own) in [(&mut a, a_key.id()), (&mut b, b_key.id()), (&mut c, c_key.id())] {
        let overlay_key = StoredAdnlNodeKey::from_private_key([9; 32]);
        let others: Vec<AdnlNodeIdShort> =
            everyone.iter().filter(|id| *id != own).copied().collect();
        assert!(node.add_private_overlay(&id, &overlay_key, &others, options()));
    }
    let payload = b"payload X".to_vec();
    let packet = message(&id, Broadcast::Broadcast(signed_broadcast(1, &payload, 0, 1000)));

    let (data, source, to) = delivered(b.try_consume_custom(a_key.id(), &packet, 0).unwrap());
    assert_eq!(data, payload);
    assert_eq!(&source, a_key.id());
    assert_eq!(to, vec![*c_key.id()]);

    let (data, _, to) = delivered(c.try_consume_custom(a_key.id(), &packet, 0).unwrap());
    assert_eq!(data, payload);
    assert_eq!(to, vec![*b_key.id()]);

    for _ in 0..3 {
        let again = c.try_consume_custom(b_key.id(), &packet, 0).unwrap();
        assert!(matches!(again, Some(BroadcastOutcome::Duplicate)));
        let again = b.try_consume_custom(c_key.id(), &packet, 0).unwrap();
        assert!(matches!(again, Some(BroadcastOutcome::Duplicate)));
    }
    let metrics: OverlayShardMetrics = c.metrics()[0].1;
    assert_eq!(metrics.received_broadcasts, 4);
    assert_eq!(metrics.delivered_broadcasts, 1);
    assert_eq!(metrics.dropped_broadcasts, 3);
    assert_eq!(metrics.forwarded_broadcasts, 1);
    assert_eq!(metrics.received_bytes, 4 * payload.len() as u64);
}

#[test]
fn a_forged_broadcast_is_rejected() {
    let (mut node, _) = overlay_node(1);
    let id = OverlayIdShort::new([7; 32]);
    node.add_public_overlay(&id, options());
    let mut forged = signed_broadcast(2, b"genuine", 0, 5);
    forged.data = b"forged!".to_vec();
    let outcome =
        node.try_consume_custom(&peer(1), &message(&id, Broadcast::Broadcast(forged)), 0);
    assert!(matches!(outcome.unwrap(), Some(BroadcastOutcome::Rejected)));
    let mut short = signed_broadcast(2, b"genuine", 0, 6);
    short.signature.pop();
    let outcome = node.try_consume_custom(&peer(1), &message(&id, Broadcast::Broadcast(short)), 0);
    assert!(matches!(outcome.unwrap(), Some(BroadcastOutcome::Rejected)));
    let mut redated = signed_broadcast(2, b"genuine", 0, 7);
    redated.date = 8;
    let outcome =
        node.try_consume_custom(&peer(1), &message(&id, Broadcast::Broadcast(redated)), 0);
    assert!(matches!(outcome.unwrap(), Some(BroadcastOutcome::Rejected)));
    let metrics = node.metrics()[0].1;
    assert_eq!(metrics.dropped_broadcasts, 3);
    assert_eq!(metrics.delivered_broadcasts, 0);
    assert_eq!(node.get_overlay_shard(&id).unwrap().seen_broadcast_count(), 3);
}

#[test]
fn a_broadcast_is_forgotten_only_after_the_log_is_full() {
    let (mut node, _) = overlay_node(1);
    let id = OverlayIdShort::new([7; 32]);
    node.add_public_overlay(&id, OverlayShardOptions { max_broadcast_log_size: 3, ..options() });
    let packets: Vec<_> = (0..5u8)
        .map(|n| message(&id, Broadcast::Broadcast(signed_broadcast(2, &[n], 0, 1))))
        .collect();
    for n in 0..3 {
        delivered(node.try_consume_custom(&peer(1), &packets[n], 0).unwrap());
    }
    // 0 was seen three broadcasts ago: still remembered, and now seen last
    let again = node.try_consume_custom(&peer(1), &packets[0], 0).unwrap();
    assert!(matches!(again, Some(BroadcastOutcome::Duplicate)));
    delivered(node.try_consume_custom(&peer(1), &packets[3], 0).unwrap());
    // 1 has gone to make room for 3; 0 is still there
    let again = node.try_consume_custom(&peer(1), &packets[0], 0).unwrap();
    assert!(matches!(again, Some(BroadcastOutcome::Duplicate)));
    delivered(node.try_consume_custom(&peer(1), &packets[1], 0).unwrap());
    assert_eq!(node.get_overlay_shard(&id).unwrap().seen_broadcast_count(), 3);
}

#[test]
fn neighbours_exclude_sender_and_source() {
    let (mut node, _) = overlay_node(1);
    let source = StoredAdnlNodeKey::from_private_key([2; 32]);
    let id = OverlayIdShort::new([7; 32]);
    let overlay_key = StoredAdnlNodeKey::from_private_key([9; 32]);
    let mut peers: Vec<AdnlNodeIdShort> = (10..20).map(peer).collect();
    peers.push(*source.id());
    let wanted = OverlayShardOptions { broadcast_target_count: 4, ..options() };
    node.add_private_overlay(&id, &overlay_key, &peers, wanted);
    for n in 0..30u8 {
        let packet = message(&id, Broadcast::Broadcast(signed_broadcast(2, &[n], 0, 1)));
        let (_, from, to) = delivered(node.try_consume_custom(&peer(10), &packet, 0).unwrap());
        assert_eq!(&from, source.id());
        assert_eq!(to.len(), 4);
        for (i, neighbour) in to.iter().enumerate() {
            assert!(peers.contains(neighbour));
            assert_ne!(neighbour, &peer(10));
            assert_ne!(neighbour, source.id());
            assert!(!to[..i].contains(neighbour));
        }
    }
    assert_eq!(node.metrics()[0].1.forwarded_broadcasts, 120);
}

#[test]
fn sixty_six_symbols_rebuild_fifty_thousand_bytes() {
    let (mut node, _) = overlay_node(1);
    let id = OverlayIdShort::new([7; 32]);
    let overlay_key = StoredAdnlNodeKey::from_private_key([9; 32]);
    node.add_private_overlay(&id, &overlay_key, &[peer(1), peer(2)], options());
    let payload: Vec<u8> = (0..50_000usize).map(|i| (i * 7 + i / 251) as u8).collect();
    let symbols = fec_symbols(2, &payload, 70, 1000);
    assert_eq!(symbols[0].fec.symbols_count, 66);
    let mut order: Vec<usize> = (0..70).filter(|i| i % 17 != 3).collect();
    order.reverse();
    assert_eq!(order.len(), 66);
    let mut outcomes = Vec::new();
    for (n, i) in order.iter().enumerate() {
        let symbol = &symbols[*i];
        let packet = message(
            &id,
            Broadcast::BroadcastFec(BroadcastFec {
                src: symbol.src,
                data_hash: symbol.data_hash,
                data_size: symbol.data_size,
                flags: symbol.flags,
                data: symbol.data.clone(),
                seqno: symbol.seqno,
                fec: symbol.fec,
                date: symbol.date,
                signature: symbol.signature.clone(),
            }),
        );
        let outcome = node.try_consume_custom(&peer(1), &packet, 100).unwrap().unwrap();
        if n < 65 {
            match &outcome {
                BroadcastOutcome::Pending { neighbours } => assert_eq!(neighbours, &vec![peer(2)]),
                other => panic!("symbol {}: {:?}", n, other),
            }
        }
        outcomes.push(outcome);
    }
    match outcomes.pop().unwrap() {
        BroadcastOutcome::Delivered { data, neighbours, .. } => {
            assert_eq!(data, payload);
            assert_eq!(neighbours, vec![peer(2)]);
        },
        other => panic!("not delivered: {:?}", other),
    }
    let straggler = message(&id, Broadcast::BroadcastFec(fec_symbols(2, &payload, 1, 1000).remove(0)));
    for _ in 0..2 {
        let late = node.try_consume_custom(&peer(1), &straggler, 100).unwrap();
        assert!(matches!(late, Some(BroadcastOutcome::Duplicate)));
    }
    let metrics = node.metrics()[0].1;
    assert_eq!(metrics.received_broadcasts, 68);
    assert_eq!(metrics.delivered_broadcasts, 1);
    assert_eq!(metrics.dropped_broadcasts, 2);
    assert_eq!(metrics.forwarded_broadcasts, 66);
    assert_eq!(node.get_overlay_shard(&id).unwrap().transfer_count(), 1);
}

#[test]
fn symbols_that_no_transfer_takes() {
    let (mut node, _) = overlay_node(1);
    let id = OverlayIdShort::new([7; 32]);
    let limits = OverlayShardOptions { max_fec_broadcast_size: 3000, max_fec_transfers: 1, ..options() };
    node.add_public_overlay(&id, limits);
    let payload = vec![3u8; 2000];
    let make = |change: &dyn Fn(&mut BroadcastFec)| {
        let mut symbol = fec_symbols(2, &payload, 1, 5).remove(0);
        change(&mut symbol);
        message(&id, Broadcast::BroadcastFec(symbol))
    };
    let bad: Vec<Option<(OverlayMessage, Broadcast)>> = vec![
        make(&|s| s.data.push(0)),
        make(&|s| s.data.truncate(767)),
        make(&|s| s.seqno = 0x100_0000),
        make(&|s| s.fec.symbols_count = 2),
        make(&|s| s.fec.symbol_size = 512),
        make(&|s| s.fec.data_size = 1999),
        make(&|s| {
            s.data_size = 0;
            s.fec.data_size = 0;
            s.fec.symbols_count = 0;
        }),
        make(&|s| {
            s.data_size = 3001;
            s.fec.data_size = 3001;
            s.fec.symbols_count = 4;
        }),
    ];
    for packet in &bad {
        let outcome = node.try_consume_custom(&peer(1), packet, 0).unwrap();
        assert!(matches!(outcome, Some(BroadcastOutcome::Rejected)));
    }
    assert_eq!(node.get_overlay_shard(&id).unwrap().transfer_count(), 0);
    let good = make(&|_| ());
    let outcome = node.try_consume_custom(&peer(1), &good, 0).unwrap();
    assert!(matches!(outcome, Some(BroadcastOutcome::Pending { .. })));
    // no room for a second transfer
    let other = message(&id, Broadcast::BroadcastFec(fec_symbols(2, &[4u8; 2000], 1, 5).remove(0)));
    let outcome = node.try_consume_custom(&peer(1), &other, 0).unwrap();
    assert!(matches!(outcome, Some(BroadcastOutcome::Rejected)));
    assert_eq!(node.get_overlay_shard(&id).unwrap().transfer_count(), 1);
    assert_eq!(node.metrics()[0].1.dropped_broadcasts, 9);
}

#[test]
fn a_transfer_fails_after_its_deadline_or_on_a_forged_payload() {
    let (mut node, _) = overlay_node(1);
    let id = OverlayIdShort::new([7; 32]);
    node.add_public_overlay(&id, options());
    let payload = vec![3u8; 2000];
    let mut symbols = fec_symbols(2, &payload, 3, 5);
    let first = message(&id, Broadcast::BroadcastFec(symbols.remove(0)));
    let second = message(&id, Broadcast::BroadcastFec(symbols.remove(0)));
    let third = message(&id, Broadcast::BroadcastFec(symbols.remove(0)));
    let outcome = node.try_consume_custom(&peer(1), &first, 100).unwrap();
    assert!(matches!(outcome, Some(BroadcastOutcome::Pending { .. })));
    let outcome = node.try_consume_custom(&peer(1), &second, 160).unwrap();
    assert!(matches!(outcome, Some(BroadcastOutcome::Pending { .. })));
    let outcome = node.try_consume_custom(&peer(1), &third, 161).unwrap();
    assert!(matches!(outcome, Some(BroadcastOutcome::Rejected)));
    let outcome = node.try_consume_custom(&peer(1), &third, 100).unwrap();
    assert!(matches!(outcome, Some(BroadcastOutcome::Duplicate)));

    // a payload that does not have the announced digest
    let mut forged = fec_symbols(2, &[5u8; 700], 1, 5).remove(0);
    forged.data_hash = [0; 32];
    let outcome = node
        .try_consume_custom(&peer(1), &message(&id, Broadcast::BroadcastFec(forged)), 100)
        .unwrap();
    assert!(matches!(outcome, Some(BroadcastOutcome::Rejected)));
    // a payload with a signature that does not hold
    let mut unsigned = fec_symbols(2, &[6u8; 700], 1, 5).remove(0);
    unsigned.signature[0] ^= 1;
    let outcome = node
        .try_consume_custom(&peer(1), &message(&id, Broadcast::BroadcastFec(unsigned)), 100)
        .unwrap();
    assert!(matches!(outcome, Some(BroadcastOutcome::Rejected)));
    // a payload of one symbol is delivered at once
    let whole = fec_symbols(2, &[7u8; 700], 1, 5).remove(0);
    let outcome = node
        .try_consume_custom(&peer(1), &message(&id, Broadcast::BroadcastFec(whole)), 100)
        .unwrap();
    assert_eq!(delivered(outcome).0, vec![7u8; 700]);
    assert_eq!(node.get_overlay_shard(&id).unwrap().transfer_count(), 4);
}

#[test]
fn query_bundles_that_are_handed_back() {
    let (mut node, _) = overlay_node(1);
    let id = OverlayIdShort::new([7; 32]);
    node.add_public_overlay(&id, options());
    let rejected = |step: Result<QueryBundleStep, OverlayNodeError>| match step {
        Ok(QueryBundleStep::Done(QueryBundleConsumingResult::Rejected(queries))) => queries,
        other => panic!("not rejected: {:?}", other),
    };
    assert!(rejected(node.try_consume_query_bundle(vec![])).is_empty());
    let one = rejected(node.try_consume_query_bundle(vec![Query::Overlay { overlay: id.0 }]));
    assert!(matches!(one[..], [Query::Overlay { .. }]));
    let three = rejected(node.try_consume_query_bundle(vec![
        Query::Overlay { overlay: id.0 },
        Query::Other(vec![1]),
        Query::Other(vec![2]),
    ]));
    assert_eq!(three.len(), 3);
    let swapped = rejected(node.try_consume_query_bundle(vec![
        Query::Other(vec![1]),
        Query::Overlay { overlay: id.0 },
    ]));
    assert!(matches!(&swapped[..], [Query::Other(first), Query::Overlay { .. }] if first == &vec![1]));
}

#[test]
fn other_queries_go_to_the_subscriber() {
    let (mut node, _) = overlay_node(1);
    let id = OverlayIdShort::new([7; 32]);
    let bundle = || vec![Query::Overlay { overlay: id.0 }, Query::Other(vec![1, 2, 3])];
    assert_eq!(
        node.try_consume_query_bundle(bundle()).unwrap_err(),
        OverlayNodeError::NoConsumerFound
    );
    node.add_subscriber(id, 42);
    match node.try_consume_query_bundle(bundle()).unwrap() {
        QueryBundleStep::Delegate { subscriber, query } => {
            assert_eq!(subscriber, 42);
            assert!(matches!(query, Query::Other(bytes) if bytes == vec![1, 2, 3]));
        },
        other => panic!("not delegated: {:?}", other),
    }
    let answered = OverlayNode::complete_query_bundle(QueryConsumingResult::Consumed(vec![9, 9]));
    assert!(matches!(answered, Ok(QueryBundleConsumingResult::Consumed(bytes)) if bytes == vec![9, 9]));
    let refused =
        OverlayNode::complete_query_bundle(QueryConsumingResult::Rejected(Query::Other(vec![1])));
    assert_eq!(refused.unwrap_err(), OverlayNodeError::UnsupportedQuery);
}

fn answer(step: Result<QueryBundleStep, OverlayNodeError>) -> Vec<u8> {
    match step {
        Ok(QueryBundleStep::Done(QueryBundleConsumingResult::Consumed(answer))) => answer,
        other => panic!("not answered: {:?}", other),
    }
}

#[test]
fn random_peers_are_exchanged_in_a_public_overlay() {
    let (mut b, b_key) = overlay_node(2);
    let id = b.compute_overlay_short_id(0);
    let exchange = |peers: Vec<Node>| {
        vec![Query::Overlay { overlay: id.0 }, Query::GetRandomPeers { peers }]
    };
    assert_eq!(
        b.try_consume_query_bundle(exchange(vec![])).unwrap_err(),
        OverlayNodeError::UnknownOverlay
    );
    b.add_public_overlay(&id, options());
    let empty = serialize(&Nodes { nodes: vec![] }).unwrap();
    assert_eq!(empty, vec![0x97, 0xfa, 0xd3, 0x73, 0, 0, 0, 0]);
    assert_eq!(answer(b.try_consume_query_bundle(exchange(vec![]))), empty);

    // B's own announcement reaches B by gossip; A then asks without peers of its own
    let node_b = signed_node(2, &id, 1);
    assert_eq!(short_id(&node_b.id), b_key.id().0);
    let first = answer(b.try_consume_query_bundle(exchange(vec![node_b.duplicate()])));
    let expected = serialize(&Nodes { nodes: vec![node_b.duplicate()] }).unwrap();
    assert_eq!(first, expected);
    assert_eq!(answer(b.try_consume_query_bundle(exchange(vec![]))), expected);
    let mut by_hand = vec![0x97, 0xfa, 0xd3, 0x73, 1, 0, 0, 0, 0xc6, 0xb4, 0x13, 0x48];
    by_hand.extend_from_slice(&node_b.id);
    by_hand.extend_from_slice(&id.0);
    by_hand.extend_from_slice(&1i32.to_le_bytes());
    by_hand.push(64);
    by_hand.extend_from_slice(&node_b.signature);
    by_hand.extend_from_slice(&[0, 0, 0]);
    assert_eq!(expected, by_hand);

    let shard = b.get_overlay_shard(&id).unwrap();
    assert_eq!(shard.node_count(), 1);
    assert!(shard.is_known_peer(b_key.id()));
}

#[test]
fn only_genuine_announcements_are_taken() {
    let (mut node, _) = overlay_node(1);
    let id = OverlayIdShort::new([7; 32]);
    let other = OverlayIdShort::new([8; 32]);
    node.add_public_overlay(&id, OverlayShardOptions { max_shard_peers_amount: 2, ..options() });
    let mut forged = signed_node(3, &id, 1);
    forged.version = 2;
    let mut short = signed_node(4, &id, 1);
    short.signature.truncate(63);
    let incoming = vec![
        signed_node(2, &id, 1),
        forged,
        signed_node(5, &other, 1),
        short,
        signed_node(6, &id, 1),
        signed_node(2, &id, 2),
        signed_node(7, &id, 1),
    ];
    let bundle = vec![Query::Overlay { overlay: id.0 }, Query::GetRandomPeers { peers: incoming }];
    let reply = answer(node.try_consume_query_bundle(bundle));
    let shard = node.get_overlay_shard(&id).unwrap();
    assert_eq!(shard.node_count(), 3);
    assert_eq!(shard.known_peer_count(), 3);
    for seed in [2u8, 6, 7] {
        let id = AdnlNodeIdShort::new(short_id(&key_pair(seed).public_key.to_bytes()));
        assert!(shard.is_known_peer(&id));
    }
    // the answer holds two of the three announcements kept
    assert_eq!(&reply[4..8], &[2, 0, 0, 0]);
    assert_eq!(reply.len(), 8 + 2 * (4 + 32 + 32 + 4 + 68));
    let first = &reply[12..44];
    let second = &reply[12 + 140..44 + 140];
    assert_ne!(first, second);
    for key in [first, second] {
        assert!([2u8, 6, 7].iter().any(|seed| key == key_pair(*seed).public_key.as_bytes()));
    }
}

#[test]
fn a_private_overlay_ignores_gossiped_peers() {
    let (mut b, _) = overlay_node(2);
    let a = StoredAdnlNodeKey::from_private_key([1; 32]);
    let overlay_key = StoredAdnlNodeKey::from_private_key([9; 32]);
    let id = OverlayIdShort::new([7; 32]);
    b.add_private_overlay(&id, &overlay_key, &[*a.id()], options());
    let node_c = signed_node(3, &id, 1);
    let c_id = AdnlNodeIdShort::new(short_id(&node_c.id));
    let bundle =
        vec![Query::Overlay { overlay: id.0 }, Query::GetRandomPeers { peers: vec![node_c] }];
    let reply = answer(b.try_consume_query_bundle(bundle));
    assert_eq!(reply, serialize(&Nodes { nodes: vec![] }).unwrap());
    let shard = b.get_overlay_shard(&id).unwrap();
    assert!(!shard.is_known_peer(&c_id));
    assert!(shard.is_known_peer(a.id()));
    assert_eq!(shard.known_peer_count(), 1);
    assert_eq!(shard.node_count(), 0);
}

#[test]
fn messages_of_packets_that_fell_behind_are_not_offered() {
    let (mut node, key) = overlay_node(1);
    let id = OverlayIdShort::new([7; 32]);
    node.add_public_overlay(&id, options());
    let sender = StoredAdnlNodeKey::from_private_key([2; 32]);
    let added = node.adnl_mut().add_peer(
        tiny_adnl::adnl_node::PeerContext::Ordinary,
        key.id(),
        sender.id(),
        AdnlAddressUdp { ip: 1, port: 2 },
        *sender.full_id(),
    );
    assert_eq!(added, Ok(true));
    let packet = |n: u8| message(&id, Broadcast::Broadcast(signed_broadcast(2, &[n], 0, 1)));

    let offered = node.receive_custom(key.id(), sender.id(), 100, &packet(1), 0);
    assert!(matches!(offered, Some(Ok(Some(BroadcastOutcome::Delivered { .. })))));
    // 36 lies a whole window behind 100
    assert!(node.receive_custom(key.id(), sender.id(), 36, &packet(2), 0).is_none());
    assert_eq!(node.metrics()[0].1.received_broadcasts, 1);
    let offered = node.receive_custom(key.id(), sender.id(), 37, &packet(2), 0);
    assert!(matches!(offered, Some(Ok(Some(BroadcastOutcome::Delivered { .. })))));
    let offered = node.receive_custom(key.id(), sender.id(), 101, &packet(2), 0);
    assert!(matches!(offered, Some(Ok(Some(BroadcastOutcome::Duplicate)))));
    assert!(node.receive_custom(key.id(), sender.id(), 37, &packet(3), 0).is_none());
    assert_eq!(node.adnl().peer(key.id(), sender.id()).unwrap().received.highest, 101);

    // a refusal of the overlay layer comes back as it is
    let offered = node.receive_custom(key.id(), sender.id(), 102, &message(&id, Broadcast::Other), 0);
    assert!(matches!(
        offered,
        Some(Err(OverlayNodeError::UnsupportedOverlayBroadcastMessage))
    ));
    assert!(matches!(node.receive_custom(key.id(), sender.id(), 103, &None, 0), Some(Ok(None))));

    // nothing is offered from a peer that is not known
    assert!(node.receive_custom(key.id(), &peer(9), 500, &packet(4), 0).is_none());
    assert!(node.receive_custom(&peer(9), sender.id(), 500, &packet(4), 0).is_none());
    assert_eq!(node.metrics()[0].1.received_broadcasts, 3);
}
