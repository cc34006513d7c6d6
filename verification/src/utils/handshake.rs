//! The outer layout of a packet and the handshake that protects its content.
//!
//! A packet is the recipient's short id, a key, a checksum and a body, in
//! that order. In a handshake packet the key is a one-time public key of the
//! sender, the checksum is the SHA-256 digest of the content, and the body
//! is the content under the cipher derived from the shared secret and the
//! checksum.
use vstd::prelude::*;
use vstd::slice::slice_subrange;
use crate::utils::node_id::{
    bytes32_eq, private_key_part_of, AdnlNodeIdFull, AdnlNodeIdShort, StoredAdnlNodeKey,
};
use crate::utils::{
    aes256_ctr, build_packet_cipher, compute_shared_secret, packet_cipher_iv, packet_cipher_key,
    sha256, sha256_digest, shared_secret,
};

verus! {

/// Number of bytes in front of a packet's body.
pub const PACKET_HEADER_LEN: usize = 96;

/// The parts of a packet.
#[derive(Debug)]
pub struct PacketFrame {
    pub recipient: [u8; 32],
    pub key: [u8; 32],
    pub checksum: [u8; 32],
    pub body: Vec<u8>,
}

/// The content of a [`PacketFrame`].
pub struct FrameView {
    pub recipient: Seq<u8>,
    pub key: Seq<u8>,
    pub checksum: Seq<u8>,
    pub body: Seq<u8>,
}

impl View for PacketFrame {
    type V = FrameView;

    open spec fn view(&self) -> FrameView {
        FrameView {
            recipient: self.recipient@,
            key: self.key@,
            checksum: self.checksum@,
            body: self.body@,
        }
    }
}

/// Why a packet could not be opened.
#[derive(Clone, Copy, Debug, PartialEq, Eq, Structural)]
pub enum HandshakeError {
    /// The packet is shorter than its header.
    TooShort,
    /// The packet is for another recipient.
    UnknownRecipient,
    /// The sender's key is not the encoding of a curve point.
    BadPublicKeyData,
    /// The content does not have the digest that the packet announces.
    BadChecksum,
}

/// Whether the three header fields have their 32 bytes each.
pub open spec fn frame_fits(frame: FrameView) -> bool {
    frame.recipient.len() == 32 && frame.key.len() == 32 && frame.checksum.len() == 32
}

/// The bytes of a packet with the parts given.
pub open spec fn frame_bytes(frame: FrameView) -> Seq<u8> {
    frame.recipient + frame.key + frame.checksum + frame.body
}

/// The parts of the packet `bytes`, if it is long enough to have a header.
pub open spec fn parse_frame(bytes: Seq<u8>) -> Option<FrameView> {
    if bytes.len() < PACKET_HEADER_LEN {
        None
    } else {
        Some(
            FrameView {
                recipient: bytes.subrange(0, 32),
                key: bytes.subrange(32, 64),
                checksum: bytes.subrange(64, 96),
                body: bytes.skip(96),
            },
        )
    }
}

/// Reading a packet gives back the parts it was written from.
pub proof fn lemma_frame_round_trip(frame: FrameView)
    requires
        frame_fits(frame),
    ensures
        parse_frame(frame_bytes(frame)) == Some(frame),
{
    let bytes = frame_bytes(frame);
    let parsed = parse_frame(bytes).unwrap();
    assert(parsed.recipient =~= frame.recipient);
    assert(parsed.key =~= frame.key);
    assert(parsed.checksum =~= frame.checksum);
    assert(parsed.body =~= frame.body);
}

/// Writing the parts of a packet gives back the packet they were read from.
pub proof fn lemma_frame_bytes_round_trip(bytes: Seq<u8>)
    requires
        bytes.len() >= PACKET_HEADER_LEN,
    ensures
        frame_fits(parse_frame(bytes).unwrap()),
        frame_bytes(parse_frame(bytes).unwrap()) == bytes,
{
    assert(frame_bytes(parse_frame(bytes).unwrap()) =~= bytes);
}

fn copy32(bytes: &[u8], from: usize) -> (copy: [u8; 32])
    requires
        from + 32 <= bytes@.len(),
    ensures
        copy@ == bytes@.subrange(from as int, from + 32),
{
    let mut copy = [0u8; 32];
    let len = bytes.len();
    let mut i: usize = 0;
    while i < 32
        invariant
            i <= 32,
            len == bytes@.len(),
            from + 32 <= len,
            forall|k: int| 0 <= k < i ==> copy@[k] == bytes@[from + k],
        decreases 32 - i,
    {
        copy[i] = bytes[from + i];
        i += 1;
    }
    assert(copy@ =~= bytes@.subrange(from as int, from + 32));
    copy
}

/// Writes a packet from its parts.
pub fn encode_frame(frame: &PacketFrame) -> (bytes: Vec<u8>)
    ensures
        bytes@ == frame_bytes(frame@),
{
    let mut bytes: Vec<u8> = Vec::new();
    bytes.extend_from_slice(frame.recipient.as_slice());
    bytes.extend_from_slice(frame.key.as_slice());
    bytes.extend_from_slice(frame.checksum.as_slice());
    bytes.extend_from_slice(frame.body.as_slice());
    assert(bytes@ =~= frame_bytes(frame@));
    bytes
}

/// Reads the parts of a packet.
pub fn decode_frame(bytes: &[u8]) -> (frame: Option<PacketFrame>)
    ensures
        match parse_frame(bytes@) {
            Some(expected) => frame.is_some() && frame.unwrap()@ == expected,
            None => frame.is_none(),
        },
{
    if bytes.len() < PACKET_HEADER_LEN {
        return None;
    }
    let body = slice_subrange(bytes, PACKET_HEADER_LEN, bytes.len());
    assert(body@ =~= bytes@.skip(96));
    Some(
        PacketFrame {
            recipient: copy32(bytes, 0),
            key: copy32(bytes, 32),
            checksum: copy32(bytes, 64),
            body: vstd::slice::slice_to_vec(body),
        },
    )
}

/// `data` under the cipher of a packet with the checksum `checksum`, between
/// two nodes that share `secret`.
pub open spec fn packet_crypt(secret: Seq<u8>, checksum: Seq<u8>, data: Seq<u8>) -> Seq<u8> {
    aes256_ctr(packet_cipher_key(secret, checksum), packet_cipher_iv(secret, checksum), data)
}

/// The handshake packet that carries `payload` to the node with the public
/// key `peer_full_id`, from a sender with the one-time secret `ephemeral`.
pub open spec fn handshake_packet(
    peer_id: Seq<u8>,
    peer_full_id: Seq<u8>,
    ephemeral_part: Seq<u8>,
    ephemeral_public: Seq<u8>,
    payload: Seq<u8>,
) -> Option<Seq<u8>> {
    match shared_secret(ephemeral_part, peer_full_id) {
        None => None,
        Some(secret) => Some(
            frame_bytes(
                FrameView {
                    recipient: peer_id,
                    key: ephemeral_public,
                    checksum: sha256_digest(payload),
                    body: packet_crypt(secret, sha256_digest(payload), payload),
                },
            ),
        ),
    }
}

/// What the recipient with the short id `local_id` and the private scalar
/// `private_part` finds in the handshake packet `bytes`.
pub open spec fn opened_packet(local_id: Seq<u8>, private_part: Seq<u8>, bytes: Seq<u8>) -> Result<
    Seq<u8>,
    HandshakeError,
> {
    match parse_frame(bytes) {
        None => Err(HandshakeError::TooShort),
        Some(frame) => if frame.recipient != local_id {
            Err(HandshakeError::UnknownRecipient)
        } else {
            match shared_secret(private_part, frame.key) {
                None => Err(HandshakeError::BadPublicKeyData),
                Some(secret) => {
                    let content = packet_crypt(secret, frame.checksum, frame.body);
                    if sha256_digest(content) == frame.checksum {
                        Ok(content)
                    } else {
                        Err(HandshakeError::BadChecksum)
                    }
                },
            }
        },
    }
}

/// Builds the handshake packet that carries `payload` to a peer. `ephemeral`
/// is the sender's key for this one packet.
pub fn build_handshake_packet(
    peer_id: &AdnlNodeIdShort,
    peer_full_id: &AdnlNodeIdFull,
    ephemeral: &StoredAdnlNodeKey,
    payload: &[u8],
) -> (packet: Option<Vec<u8>>)
    ensures
        match handshake_packet(
            peer_id@,
            peer_full_id@,
            private_key_part_of(ephemeral.spec_private_key()),
            ephemeral.spec_full_id(),
            payload@,
        ) {
            Some(expected) => packet.is_some() && packet.unwrap()@ == expected,
            None => packet.is_none(),
        },
{
    let secret = match compute_shared_secret(
        ephemeral.private_key_part(),
        peer_full_id.as_bytes(),
    ) {
        Ok(secret) => secret,
        Err(_) => return None,
    };
    let checksum = sha256(payload);
    let cipher = build_packet_cipher(&secret, &checksum);
    let mut body = vstd::slice::slice_to_vec(payload);
    cipher.apply_keystream(&mut body);
    let frame = PacketFrame {
        recipient: *peer_id.as_bytes(),
        key: *ephemeral.full_id().as_bytes(),
        checksum,
        body,
    };
    Some(encode_frame(&frame))
}

/// Opens a handshake packet as the recipient `local`: checks that the packet
/// is for `local`, decrypts the body and checks the content against the
/// checksum.
pub fn parse_handshake_packet(local: &StoredAdnlNodeKey, packet: &[u8]) -> (content: Result<
    Vec<u8>,
    HandshakeError,
>)
    ensures
        match opened_packet(
            local.spec_short_id(),
            private_key_part_of(local.spec_private_key()),
            packet@,
        ) {
            Ok(expected) => content.is_ok() && content.unwrap()@ == expected,
            Err(error) => content.is_err() && content.unwrap_err() == error,
        },
{
    let frame = match decode_frame(packet) {
        Some(frame) => frame,
        None => return Err(HandshakeError::TooShort),
    };
    if !bytes32_eq(&frame.recipient, local.id().as_bytes()) {
        return Err(HandshakeError::UnknownRecipient);
    }
    let secret = match compute_shared_secret(local.private_key_part(), &frame.key) {
        Ok(secret) => secret,
        Err(_) => return Err(HandshakeError::BadPublicKeyData),
    };
    let cipher = build_packet_cipher(&secret, &frame.checksum);
    let mut content = frame.body;
    cipher.apply_keystream(&mut content);
    let digest = sha256(content.as_slice());
    if bytes32_eq(&digest, &frame.checksum) {
        Ok(content)
    } else {
        Err(HandshakeError::BadChecksum)
    }
}

} // verus!
