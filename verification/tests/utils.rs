use everscale_crypto::ed25519::{KeyPair, SecretKey};
use tiny_adnl::utils::node_id::{
    compute_overlay_id, AdnlNodeIdFull, Ed25519, Overlay, OverlayIdFull, PublicKey,
    ShardPublicOverlayId, StoredAdnlNodeKey,
};
use tiny_adnl::utils::tl::TlError;
use tiny_adnl::utils::{
    build_packet_cipher, compute_shared_secret, deserialize, deserialize_bundle,
    gen_packet_offset, hash, hash_boxed, now, serialize, serialize_append, serialize_boxed,
    serialize_inplace, timestamp_from_reading, timestamp_from_secs, BadPublicKeyData,
};

fn sha256(data: &[u8]) -> [u8; 32] {
    <sha2::Sha256 as sha2::Digest>::digest(data).into()
}

#[test]
fn ed25519_key_serializes_as_tl_proto_does() {
    let key = [7u8; 32];
    let ours = serialize(&PublicKey::Ed25519 { key }).unwrap();
    let theirs = tl_proto::serialize(everscale_crypto::tl::PublicKey::Ed25519 { key: &key });
    assert_eq!(ours, theirs);
    assert_eq!(&ours[..4], &[0xc6, 0xb4, 0x13, 0x48]);
    assert_eq!(ours.len(), 36);
}

#[test]
fn overlay_name_serializes_as_tl_proto_does() {
    for len in [0usize, 1, 2, 3, 4, 32, 253, 254, 255, 256, 1000, 70_000] {
        let name: Vec<u8> = (0..len).map(|i| i as u8).collect();
        let ours = serialize(&PublicKey::Overlay { name: name.clone() }).unwrap();
        let theirs = tl_proto::serialize(everscale_crypto::tl::PublicKey::Overlay { name: &name });
        assert_eq!(ours, theirs, "length {}", len);
        assert_eq!(ours.len() % 4, 0);
    }
}

#[test]
fn overlay_name_too_long_is_refused() {
    let name = vec![0u8; 0x100_0000];
    let key = PublicKey::Overlay { name };
    assert_eq!(serialize(&key), Err(TlError::TooLong));
    assert_eq!(hash_boxed(&key), Err(TlError::TooLong));
    let mut buffer = vec![1, 2, 3];
    assert_eq!(serialize_append(&mut buffer, &key), Err(TlError::TooLong));
    assert_eq!(buffer, vec![1, 2, 3]);
    assert_eq!(serialize_inplace(&mut buffer, &key), Err(TlError::TooLong));
    assert!(buffer.is_empty());
}

#[test]
fn serialize_append_and_inplace() {
    let key = PublicKey::Ed25519 { key: [9u8; 32] };
    let plain = serialize(&key).unwrap();
    let mut buffer = vec![1, 2, 3];
    serialize_append(&mut buffer, &key).unwrap();
    assert_eq!(&buffer[..3], &[1, 2, 3]);
    assert_eq!(&buffer[3..], &plain[..]);
    serialize_inplace(&mut buffer, &key).unwrap();
    assert_eq!(buffer, plain);
    assert_eq!(serialize_boxed(Ed25519 { key: [9u8; 32] }).unwrap(), plain);
}

#[test]
fn hash_is_sha256_of_the_boxed_form() {
    let key = [3u8; 32];
    let boxed = serialize(&PublicKey::Ed25519 { key }).unwrap();
    assert_eq!(hash_boxed(&PublicKey::Ed25519 { key }).unwrap(), sha256(&boxed));
    assert_eq!(hash(Ed25519 { key }).unwrap(), sha256(&boxed));
    assert_eq!(AdnlNodeIdFull::new(key).compute_short_id().0, sha256(&boxed));
    let name = vec![5u8; 32];
    let boxed = serialize(&PublicKey::Overlay { name: name.clone() }).unwrap();
    assert_eq!(hash(Overlay { name }).unwrap(), sha256(&boxed));
    assert_eq!(OverlayIdFull::new([5u8; 32]).compute_short_id().0, sha256(&boxed));
}

#[test]
fn sha256_of_abc() {
    // the boxed form plays no part here: an overlay id record is hashed as bytes
    let record = ShardPublicOverlayId { workchain: 0, shard: 0, zero_state_file_hash: [0; 32] };
    let bytes = serialize(&record).unwrap();
    assert_eq!(hash_boxed(&record).unwrap(), sha256(&bytes));
    let abc: [u8; 32] = sha256(b"abc");
    assert_eq!(abc[..4], [0xba, 0x78, 0x16, 0xbf]);
}

#[test]
fn overlay_id_of_a_workchain() {
    let zero_state = [0x11u8; 32];
    let mut expected = vec![0x29, 0xd3, 0x9e, 0x4d];
    expected.extend_from_slice(&(-1i32).to_le_bytes());
    expected.extend_from_slice(&(1u64 << 63).to_le_bytes());
    expected.extend_from_slice(&zero_state);
    let record = ShardPublicOverlayId {
        workchain: -1,
        shard: 1 << 63,
        zero_state_file_hash: zero_state,
    };
    assert_eq!(serialize(&record).unwrap(), expected);
    let full = compute_overlay_id(-1, zero_state);
    assert_eq!(full.0, sha256(&expected));
    let again = compute_overlay_id(-1, zero_state);
    assert_eq!(full, again);
    assert_eq!(full.compute_short_id(), again.compute_short_id());
    assert_ne!(compute_overlay_id(0, zero_state), full);
}

#[test]
fn public_key_reads_back() {
    let key = PublicKey::Ed25519 { key: [0xabu8; 32] };
    let mut bytes = serialize(&key).unwrap();
    bytes.extend_from_slice(&[1, 2, 3]);
    match deserialize::<PublicKey>(&bytes).unwrap() {
        PublicKey::Ed25519 { key } => assert_eq!(key, [0xabu8; 32]),
        other => panic!("unexpected {:?}", other),
    }
    for len in [0usize, 5, 253, 254, 300] {
        let name: Vec<u8> = (0..len).map(|i| (i * 3) as u8).collect();
        let bytes = serialize(&PublicKey::Overlay { name: name.clone() }).unwrap();
        match deserialize::<PublicKey>(&bytes).unwrap() {
            PublicKey::Overlay { name: read } => assert_eq!(read, name),
            other => panic!("unexpected {:?}", other),
        }
    }
}

#[test]
fn deserialize_errors() {
    assert_eq!(deserialize::<PublicKey>(&[]).unwrap_err(), TlError::UnexpectedEof);
    assert_eq!(deserialize::<PublicKey>(&[1, 2, 3]).unwrap_err(), TlError::UnexpectedEof);
    assert_eq!(
        deserialize::<PublicKey>(&[1, 2, 3, 4, 5]).unwrap_err(),
        TlError::UnknownConstructor
    );
    assert_eq!(
        deserialize::<PublicKey>(&[0xc6, 0xb4, 0x13, 0x48, 5]).unwrap_err(),
        TlError::UnexpectedEof
    );
    assert_eq!(
        deserialize::<PublicKey>(&[0xcb, 0x45, 0xba, 0x34, 255, 0, 0, 0]).unwrap_err(),
        TlError::InvalidData
    );
    assert_eq!(
        deserialize::<PublicKey>(&[0xcb, 0x45, 0xba, 0x34, 4, 0, 0, 0]).unwrap_err(),
        TlError::UnexpectedEof
    );
}

#[test]
fn bundle_of_two_keys_and_garbage() {
    let mut bytes = serialize(&PublicKey::Ed25519 { key: [1u8; 32] }).unwrap();
    serialize_append(&mut bytes, &PublicKey::Overlay { name: vec![2u8; 5] }).unwrap();
    bytes.extend_from_slice(&[9, 9, 9, 9, 9]);
    let bundle = deserialize_bundle::<PublicKey>(&bytes).unwrap();
    assert_eq!(bundle.len(), 2);
    assert!(matches!(bundle[0], PublicKey::Ed25519 { key } if key == [1u8; 32]));
    assert!(matches!(&bundle[1], PublicKey::Overlay { name } if name == &vec![2u8; 5]));
}

#[test]
fn bundle_without_a_first_object_fails() {
    assert_eq!(deserialize_bundle::<PublicKey>(&[]).unwrap_err(), TlError::UnexpectedEof);
    assert_eq!(
        deserialize_bundle::<PublicKey>(&[9, 9, 9, 9, 9]).unwrap_err(),
        TlError::UnknownConstructor
    );
}

#[test]
fn packet_offset_has_sixteen_bytes() {
    let first = gen_packet_offset();
    let second = gen_packet_offset();
    assert_eq!(first.len(), 16);
    assert_eq!(second.len(), 16);
    assert_ne!(first, second);
}

#[test]
fn packet_cipher_key_and_counter() {
    let secret: [u8; 32] = core::array::from_fn(|i| i as u8);
    let checksum: [u8; 32] = core::array::from_fn(|i| 100 + i as u8);
    let cipher = build_packet_cipher(&secret, &checksum);
    let mut key = [0u8; 32];
    key[..16].copy_from_slice(&secret[..16]);
    key[16..].copy_from_slice(&checksum[16..]);
    let mut iv = [0u8; 16];
    iv[..4].copy_from_slice(&checksum[..4]);
    iv[4..].copy_from_slice(&secret[20..]);
    assert_eq!(cipher.key(), &key);
    assert_eq!(cipher.iv(), &iv);
    assert_eq!(key[15], 15);
    assert_eq!(key[16], 116);
    assert_eq!(iv[3], 103);
    assert_eq!(iv[4], 20);
}

#[test]
fn packet_cipher_is_aes_256_ctr() {
    // NIST SP 800-38A, F.5.5
    let key: [u8; 32] = [
        0x60, 0x3d, 0xeb, 0x10, 0x15, 0xca, 0x71, 0xbe, 0x2b, 0x73, 0xae, 0xf0, 0x85, 0x7d, 0x77,
        0x81, 0x1f, 0x35, 0x2c, 0x07, 0x3b, 0x61, 0x08, 0xd7, 0x2d, 0x98, 0x10, 0xa3, 0x09, 0x14,
        0xdf, 0xf4,
    ];
    let iv: [u8; 16] = [
        0xf0, 0xf1, 0xf2, 0xf3, 0xf4, 0xf5, 0xf6, 0xf7, 0xf8, 0xf9, 0xfa, 0xfb, 0xfc, 0xfd, 0xfe,
        0xff,
    ];
    // a secret and a checksum that derive exactly this key and counter block
    let mut secret = [0u8; 32];
    secret[..16].copy_from_slice(&key[..16]);
    secret[20..].copy_from_slice(&iv[4..]);
    let mut checksum = [0u8; 32];
    checksum[16..].copy_from_slice(&key[16..]);
    checksum[..4].copy_from_slice(&iv[..4]);
    let cipher = build_packet_cipher(&secret, &checksum);
    let plain = vec![
        0x6b, 0xc1, 0xbe, 0xe2, 0x2e, 0x40, 0x9f, 0x96, 0xe9, 0x3d, 0x7e, 0x11, 0x73, 0x93, 0x17,
        0x2a,
    ];
    let mut data = plain.clone();
    cipher.apply_keystream(&mut data);
    assert_eq!(
        data,
        vec![
            0x60, 0x1e, 0xc3, 0x13, 0x77, 0x57, 0x89, 0xa5, 0xb7, 0xa7, 0xf5, 0x04, 0xbb, 0xf3,
            0xd2, 0x28
        ]
    );
    cipher.apply_keystream(&mut data);
    assert_eq!(data, plain);
}

#[test]
fn shared_secret_is_the_same_on_both_sides() {
    let alice = KeyPair::from(&SecretKey::from_bytes([1u8; 32]));
    let bob = KeyPair::from(&SecretKey::from_bytes([2u8; 32]));
    let expected = alice.compute_shared_secret(&bob.public_key);
    assert_eq!(expected, bob.compute_shared_secret(&alice.public_key));
    // RFC 7748 test vector for the scalar multiplication itself
    let scalar = [
        0xa5, 0x46, 0xe3, 0x6b, 0xf0, 0x52, 0x7c, 0x9d, 0x3b, 0x16, 0x15, 0x4b, 0x82, 0x46, 0x5e,
        0xdd, 0x62, 0x14, 0x4c, 0x0a, 0xc1, 0xfc, 0x5a, 0x18, 0x50, 0x6a, 0x22, 0x44, 0xba, 0x44,
        0x9a, 0xc4,
    ];
    let ours = compute_shared_secret(&scalar, bob.public_key.as_bytes()).unwrap();
    let point = curve25519_dalek::edwards::CompressedEdwardsY(bob.public_key.to_bytes())
        .decompress()
        .unwrap()
        .to_montgomery();
    assert_eq!(ours, x25519_dalek::x25519(scalar, point.to_bytes()));
    assert_ne!(ours, scalar);
    assert_ne!(ours, bob.public_key.to_bytes());
}

#[test]
fn bad_public_key_is_refused() {
    // y = 2 lies on no point of the curve
    let mut bad = [0u8; 32];
    bad[0] = 2;
    assert!(curve25519_dalek::edwards::CompressedEdwardsY(bad).decompress().is_none());
    assert_eq!(compute_shared_secret(&[1u8; 32], &bad), Err(BadPublicKeyData));
}

#[test]
fn stored_key_derives_its_ids() {
    let secret = [5u8; 32];
    let key = StoredAdnlNodeKey::from_private_key(secret);
    let expected = everscale_crypto::ed25519::PublicKey::from(
        &everscale_crypto::ed25519::SecretKey::from_bytes(secret),
    );
    assert_eq!(key.private_key(), &secret);
    assert_eq!(key.full_id().as_bytes(), expected.as_bytes());
    assert_ne!(key.full_id().as_bytes(), &secret);
    assert_eq!(key.id().0, tl_proto::hash(expected.as_tl()));
}

#[test]
fn timestamps_keep_the_low_32_bits() {
    assert_eq!(timestamp_from_secs(0), 0);
    assert_eq!(timestamp_from_secs(1_700_000_000), 1_700_000_000);
    assert_eq!(timestamp_from_secs(0x7fff_ffff), i32::MAX);
    assert_eq!(timestamp_from_secs(0x8000_0000), i32::MIN);
    assert_eq!(timestamp_from_secs(0xffff_ffff), -1);
    assert_eq!(timestamp_from_secs(0x1_0000_0005), 5);
    assert_eq!(timestamp_from_secs(u64::MAX), u64::MAX as i32);
    assert!(now() > 1_600_000_000);
}

#[test]
fn random_bytes_differ() {
    let first = tiny_adnl::utils::gen_random_bytes32();
    let second = tiny_adnl::utils::gen_random_bytes32();
    assert_ne!(first, second);
    assert_ne!(first, [0u8; 32]);
    let key = StoredAdnlNodeKey::generate();
    let other = StoredAdnlNodeKey::generate();
    assert_ne!(key.id(), other.id());
    assert_eq!(StoredAdnlNodeKey::from_private_key(*key.private_key()).id(), key.id());
}

#[test]
fn a_clock_before_the_epoch_reads_zero() {
    assert_eq!(timestamp_from_reading(None), 0);
    assert_eq!(timestamp_from_reading(Some(0)), 0);
    assert_eq!(timestamp_from_reading(Some(1_700_000_000)), 1_700_000_000);
    assert_eq!(timestamp_from_reading(Some(0x8000_0000)), i32::MIN);
    assert_eq!(timestamp_from_reading(Some(0x1_0000_0007)), 7);
}
