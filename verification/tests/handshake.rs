use tiny_adnl::utils::handshake::{
    build_handshake_packet, decode_frame, encode_frame, parse_handshake_packet, HandshakeError,
    PacketFrame, PACKET_HEADER_LEN,
};
use tiny_adnl::utils::node_id::StoredAdnlNodeKey;
use tiny_adnl::utils::{build_packet_cipher, compute_shared_secret};

fn sha256(data: &[u8]) -> [u8; 32] {
    <sha2::Sha256 as sha2::Digest>::digest(data).into()
}

#[test]
fn frame_layout() {
    let frame = PacketFrame {
        recipient: [1; 32],
        key: [2; 32],
        checksum: [3; 32],
        body: vec![4, 5, 6],
    };
    let bytes = encode_frame(&frame);
    assert_eq!(PACKET_HEADER_LEN, 96);
    assert_eq!(bytes.len(), 99);
    assert_eq!(&bytes[..32], &[1u8; 32]);
    assert_eq!(&bytes[32..64], &[2u8; 32]);
    assert_eq!(&bytes[64..96], &[3u8; 32]);
    assert_eq!(&bytes[96..], &[4, 5, 6]);
    let read = decode_frame(&bytes).unwrap();
    assert_eq!(read.recipient, frame.recipient);
    assert_eq!(read.key, frame.key);
    assert_eq!(read.checksum, frame.checksum);
    assert_eq!(read.body, frame.body);
    assert_eq!(encode_frame(&read), bytes);
}

#[test]
fn frame_needs_a_whole_header() {
    assert!(decode_frame(&[]).is_none());
    assert!(decode_frame(&[0u8; 95]).is_none());
    let empty_body = decode_frame(&[7u8; 96]).unwrap();
    assert!(empty_body.body.is_empty());
    assert_eq!(empty_body.checksum, [7u8; 32]);
}

#[test]
fn handshake_packet_is_built_as_described() {
    let local = StoredAdnlNodeKey::from_private_key([1; 32]);
    let ephemeral = StoredAdnlNodeKey::from_private_key([2; 32]);
    let payload = b"the quick brown fox".to_vec();
    let packet =
        build_handshake_packet(local.id(), local.full_id(), &ephemeral, &payload).unwrap();
    let secret =
        compute_shared_secret(ephemeral.private_key_part(), local.full_id().as_bytes()).unwrap();
    let checksum = sha256(&payload);
    let mut body = payload.clone();
    build_packet_cipher(&secret, &checksum).apply_keystream(&mut body);
    let mut expected = local.id().as_bytes().to_vec();
    expected.extend_from_slice(ephemeral.full_id().as_bytes());
    expected.extend_from_slice(&checksum);
    expected.extend_from_slice(&body);
    assert_eq!(packet, expected);
    assert_ne!(body, payload);
    assert_eq!(parse_handshake_packet(&local, &packet).unwrap(), payload);
}

#[test]
fn both_sides_share_the_secret() {
    let local = StoredAdnlNodeKey::from_private_key([1; 32]);
    let remote = StoredAdnlNodeKey::from_private_key([2; 32]);
    let ours =
        compute_shared_secret(local.private_key_part(), remote.full_id().as_bytes()).unwrap();
    let theirs =
        compute_shared_secret(remote.private_key_part(), local.full_id().as_bytes()).unwrap();
    assert_eq!(ours, theirs);
    let pair = everscale_crypto::ed25519::KeyPair::from(
        &everscale_crypto::ed25519::SecretKey::from_bytes([1; 32]),
    );
    let other = everscale_crypto::ed25519::PublicKey::from_bytes(*remote.full_id().as_bytes());
    assert_eq!(ours, pair.compute_shared_secret(&other.unwrap()));
    let digest: [u8; 64] = <sha2::Sha512 as sha2::Digest>::digest([1u8; 32]).into();
    assert_eq!(local.private_key_part(), &digest[..32]);
}

#[test]
fn handshake_errors() {
    let local = StoredAdnlNodeKey::from_private_key([1; 32]);
    let other = StoredAdnlNodeKey::from_private_key([3; 32]);
    let ephemeral = StoredAdnlNodeKey::from_private_key([2; 32]);
    let payload = vec![9u8; 40];
    let packet =
        build_handshake_packet(local.id(), local.full_id(), &ephemeral, &payload).unwrap();

    assert_eq!(parse_handshake_packet(&local, &packet[..95]), Err(HandshakeError::TooShort));
    assert_eq!(parse_handshake_packet(&other, &packet), Err(HandshakeError::UnknownRecipient));

    let mut bad_key = packet.clone();
    bad_key[32..64].copy_from_slice(&[0u8; 32]);
    bad_key[32] = 2;
    assert_eq!(parse_handshake_packet(&local, &bad_key), Err(HandshakeError::BadPublicKeyData));

    let mut bad_body = packet.clone();
    bad_body[100] ^= 1;
    assert_eq!(parse_handshake_packet(&local, &bad_body), Err(HandshakeError::BadChecksum));

    let mut bad_checksum = packet.clone();
    bad_checksum[64] ^= 1;
    assert_eq!(parse_handshake_packet(&local, &bad_checksum), Err(HandshakeError::BadChecksum));

    let mut bad = [0u8; 32];
    bad[0] = 2;
    let bad_full = tiny_adnl::utils::node_id::AdnlNodeIdFull::new(bad);
    assert!(build_handshake_packet(local.id(), &bad_full, &ephemeral, &payload).is_none());
}

#[test]
fn empty_payload_travels_too() {
    let local = StoredAdnlNodeKey::from_private_key([1; 32]);
    let ephemeral = StoredAdnlNodeKey::generate();
    let packet = build_handshake_packet(local.id(), local.full_id(), &ephemeral, &[]).unwrap();
    assert_eq!(packet.len(), 96);
    assert_eq!(&packet[64..96], &sha256(&[]));
    assert_eq!(parse_handshake_packet(&local, &packet).unwrap(), Vec::<u8>::new());
}
