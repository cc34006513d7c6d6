//! Identities: public keys, the ids derived from them, and overlay ids.
use vstd::prelude::*;
use crate::utils::tl::{
    lemma_bytes_round_trip, lemma_u32_round_trip, parse_bytes, parse_int256, parse_u32,
    read_bytes, read_int256, read_u32, tl_bytes, tl_u32, tl_u64, write_bytes, write_int256,
    write_u32, write_u64, BoxedDeserialize, BoxedObject, BoxedSerialize, IntoBoxed, TlError,
    MAX_TL_BYTES_LEN,
};
use crate::utils::{gen_random_bytes32, sha256, sha256_digest, sha512, sha512_digest};

verus! {

/// Constructor id of an Ed25519 public key.
pub const PUBLIC_KEY_ED25519_ID: u32 = 0x4813b4c6;

/// Constructor id of an overlay name used as a public key.
pub const PUBLIC_KEY_OVERLAY_ID: u32 = 0x34ba45cb;

/// Constructor id of the id record of a public shard overlay.
pub const SHARD_PUBLIC_OVERLAY_ID: u32 = 0x4d9ed329;

/// Shard prefix that stands for a whole workchain.
pub const WHOLE_WORKCHAIN_SHARD: u64 = 0x8000_0000_0000_0000;

/// A public key as it appears on the wire.
#[derive(Debug)]
pub enum PublicKey {
    Ed25519 { key: [u8; 32] },
    Overlay { name: Vec<u8> },
}

/// The content of a [`PublicKey`].
pub enum PublicKeyView {
    Ed25519 { key: Seq<u8> },
    Overlay { name: Seq<u8> },
}

impl View for PublicKey {
    type V = PublicKeyView;

    open spec fn view(&self) -> PublicKeyView {
        match self {
            PublicKey::Ed25519 { key } => PublicKeyView::Ed25519 { key: key@ },
            PublicKey::Overlay { name } => PublicKeyView::Overlay { name: name@ },
        }
    }
}

/// Boxed form of a public key.
pub open spec fn public_key_form(key: PublicKeyView) -> Seq<u8> {
    match key {
        PublicKeyView::Ed25519 { key } => tl_u32(PUBLIC_KEY_ED25519_ID) + key,
        PublicKeyView::Overlay { name } => tl_u32(PUBLIC_KEY_OVERLAY_ID) + tl_bytes(name),
    }
}

/// Whether a public key fits the format: an overlay name is a byte string
/// and has to respect its length limit, an Ed25519 key has 32 bytes.
pub open spec fn public_key_fits(key: PublicKeyView) -> bool {
    match key {
        PublicKeyView::Ed25519 { key } => key.len() == 32,
        PublicKeyView::Overlay { name } => name.len() <= MAX_TL_BYTES_LEN,
    }
}

/// Reading a public key from the start of `bytes`.
pub open spec fn parse_public_key(bytes: Seq<u8>) -> Result<(PublicKeyView, int), TlError> {
    match parse_u32(bytes) {
        Err(error) => Err(error),
        Ok((id, _)) => if id == PUBLIC_KEY_ED25519_ID {
            match parse_int256(bytes.skip(4)) {
                Err(error) => Err(error),
                Ok((key, used)) => Ok((PublicKeyView::Ed25519 { key }, 4 + used)),
            }
        } else if id == PUBLIC_KEY_OVERLAY_ID {
            match parse_bytes(bytes.skip(4)) {
                Err(error) => Err(error),
                Ok((name, used)) => Ok((PublicKeyView::Overlay { name }, 4 + used)),
            }
        } else {
            Err(TlError::UnknownConstructor)
        },
    }
}

/// Reading a public key gives back the key that was written, whatever
/// follows it, and takes exactly the bytes that were written.
pub proof fn lemma_public_key_round_trip(key: PublicKeyView, rest: Seq<u8>)
    requires
        public_key_fits(key),
    ensures
        parse_public_key(public_key_form(key) + rest) == Ok::<(PublicKeyView, int), TlError>(
            (key, public_key_form(key).len() as int),
        ),
{
    let bytes = public_key_form(key) + rest;
    match key {
        PublicKeyView::Ed25519 { key: content } => {
            lemma_u32_round_trip(PUBLIC_KEY_ED25519_ID, content + rest);
            assert(bytes =~= tl_u32(PUBLIC_KEY_ED25519_ID) + (content + rest));
            assert(bytes.skip(4) =~= content + rest);
            assert((content + rest).take(32) =~= content);
        },
        PublicKeyView::Overlay { name } => {
            lemma_u32_round_trip(PUBLIC_KEY_OVERLAY_ID, tl_bytes(name) + rest);
            assert(bytes =~= tl_u32(PUBLIC_KEY_OVERLAY_ID) + (tl_bytes(name) + rest));
            assert(bytes.skip(4) =~= tl_bytes(name) + rest);
            lemma_bytes_round_trip(name, rest);
        },
    }
}

impl BoxedSerialize for PublicKey {
    open spec fn boxed_form(&self) -> Seq<u8> {
        public_key_form(self@)
    }

    open spec fn serializable(&self) -> bool {
        public_key_fits(self@)
    }

    fn write_boxed(&self, buffer: &mut Vec<u8>) -> (written: Result<(), TlError>) {
        match self {
            PublicKey::Ed25519 { key } => {
                write_u32(buffer, PUBLIC_KEY_ED25519_ID);
                write_int256(buffer, key);
                assert(buffer@ =~= old(buffer)@ + self.boxed_form());
                Ok(())
            },
            PublicKey::Overlay { name } => {
                if name.len() > MAX_TL_BYTES_LEN {
                    return Err(TlError::TooLong);
                }
                write_u32(buffer, PUBLIC_KEY_OVERLAY_ID);
                write_bytes(buffer, name.as_slice());
                assert(buffer@ =~= old(buffer)@ + self.boxed_form());
                Ok(())
            },
        }
    }
}

impl BoxedObject for PublicKey {
    proof fn lemma_round_trip(&self, rest: Seq<u8>) {
        lemma_public_key_round_trip(self@, rest);
    }
}

impl BoxedDeserialize for PublicKey {
    open spec fn parse_boxed(bytes: Seq<u8>) -> Result<(PublicKeyView, int), TlError> {
        parse_public_key(bytes)
    }

    proof fn lemma_parse_boxed_bounds(bytes: Seq<u8>) {
    }

    fn read_boxed(bytes: &[u8]) -> (read: Result<(Self, usize), TlError>) {
        let (id, _) = match read_u32(bytes) {
            Ok(head) => head,
            Err(error) => return Err(error),
        };
        let rest = vstd::slice::slice_subrange(bytes, 4, bytes.len());
        assert(rest@ == bytes@.skip(4));
        if id == PUBLIC_KEY_ED25519_ID {
            match read_int256(rest) {
                Ok((key, used)) => Ok((PublicKey::Ed25519 { key }, 4 + used)),
                Err(error) => Err(error),
            }
        } else if id == PUBLIC_KEY_OVERLAY_ID {
            match read_bytes(rest) {
                Ok((name, used)) => Ok((PublicKey::Overlay { name }, 4 + used)),
                Err(error) => Err(error),
            }
        } else {
            Err(TlError::UnknownConstructor)
        }
    }
}

/// The Ed25519 public key that belongs to the secret key `secret`.
pub uninterp spec fn ed25519_public(secret: Seq<u8>) -> Seq<u8>;

/// Derives the public key of a secret key: `everscale_crypto::ed25519`
/// makes a `SecretKey` from the bytes and a `PublicKey` from that.
///
/// Trusted: the result depends on the secret's 32 bytes alone.
#[verifier::external_body]
fn ed25519_public_key(secret: &[u8; 32]) -> (public: [u8; 32])
    ensures
        public@ == ed25519_public(secret@),
{
    let secret = everscale_crypto::ed25519::SecretKey::from_bytes(*secret);
    everscale_crypto::ed25519::PublicKey::from(&secret).to_bytes()
}

/// Whether `signature` is a valid Ed25519 signature of `message` under the
/// public key `public_key`; a key that encodes no curve point validates
/// nothing.
pub uninterp spec fn ed25519_valid(public_key: Seq<u8>, message: Seq<u8>, signature: Seq<u8>) -> bool;

/// Checks a signature with `everscale_crypto::ed25519::PublicKey::verify_raw`,
/// on the key that `PublicKey::from_bytes` makes of the 32 bytes.
///
/// Trusted: the verdict depends on key, message and signature alone.
#[verifier::external_body]
pub(crate) fn ed25519_verify(public_key: &[u8; 32], message: &[u8], signature: &[u8; 64]) -> (valid:
    bool)
    ensures
        valid == ed25519_valid(public_key@, message@, signature@),
{
    match everscale_crypto::ed25519::PublicKey::from_bytes(*public_key) {
        Some(key) => key.verify_raw(message, signature),
        None => false,
    }
}

/// Whether two 32-byte values are the same.
pub fn bytes32_eq(a: &[u8; 32], b: &[u8; 32]) -> (same: bool)
    ensures
        same == (a@ == b@),
{
    let mut i: usize = 0;
    while i < 32
        invariant
            i <= 32,
            forall|k: int| 0 <= k < i ==> a@[k] == b@[k],
        decreases 32 - i,
    {
        if a[i] != b[i] {
            return false;
        }
        i += 1;
    }
    assert(a@ =~= b@);
    true
}

/// Bare record of an Ed25519 public key.
#[derive(Clone, Copy, Debug)]
pub struct Ed25519 {
    pub key: [u8; 32],
}

/// Bare record of an overlay name.
#[derive(Debug)]
pub struct Overlay {
    pub name: Vec<u8>,
}

impl IntoBoxed for Ed25519 {
    type Boxed = PublicKey;

    open spec fn boxed(self) -> PublicKey {
        PublicKey::Ed25519 { key: self.key }
    }

    fn into_boxed(self) -> (boxed: PublicKey) {
        PublicKey::Ed25519 { key: self.key }
    }
}

impl IntoBoxed for Overlay {
    type Boxed = PublicKey;

    open spec fn boxed(self) -> PublicKey {
        PublicKey::Overlay { name: self.name }
    }

    fn into_boxed(self) -> (boxed: PublicKey) {
        PublicKey::Overlay { name: self.name }
    }
}

/// Id record of the public overlay of a workchain.
#[derive(Clone, Copy, Debug)]
pub struct ShardPublicOverlayId {
    pub workchain: i32,
    pub shard: u64,
    pub zero_state_file_hash: [u8; 32],
}

/// Boxed form of the id record of a public shard overlay.
pub open spec fn shard_public_overlay_form(
    workchain: i32,
    shard: u64,
    zero_state_file_hash: Seq<u8>,
) -> Seq<u8> {
    tl_u32(SHARD_PUBLIC_OVERLAY_ID) + tl_u32(workchain as u32) + tl_u64(shard)
        + zero_state_file_hash
}

impl BoxedSerialize for ShardPublicOverlayId {
    open spec fn boxed_form(&self) -> Seq<u8> {
        shard_public_overlay_form(self.workchain, self.shard, self.zero_state_file_hash@)
    }

    open spec fn serializable(&self) -> bool {
        true
    }

    fn write_boxed(&self, buffer: &mut Vec<u8>) -> (written: Result<(), TlError>) {
        write_u32(buffer, SHARD_PUBLIC_OVERLAY_ID);
        write_u32(buffer, self.workchain as u32);
        write_u64(buffer, self.shard);
        write_int256(buffer, &self.zero_state_file_hash);
        assert(buffer@ =~= old(buffer)@ + self.boxed_form());
        Ok(())
    }
}

impl IntoBoxed for ShardPublicOverlayId {
    type Boxed = ShardPublicOverlayId;

    open spec fn boxed(self) -> ShardPublicOverlayId {
        self
    }

    fn into_boxed(self) -> (boxed: ShardPublicOverlayId) {
        self
    }
}

/// Full id of a node: its Ed25519 public key.
#[derive(Clone, Copy, Debug, PartialEq, Eq, Hash)]
pub struct AdnlNodeIdFull(pub [u8; 32]);

/// Short id of a node: the digest of its boxed public key.
#[derive(Clone, Copy, Debug, PartialEq, Eq, Hash)]
pub struct AdnlNodeIdShort(pub [u8; 32]);

/// Full id of an overlay: the digest of its boxed id record.
#[derive(Clone, Copy, Debug, PartialEq, Eq, Hash)]
pub struct OverlayIdFull(pub [u8; 32]);

/// Short id of an overlay: the digest of its full id boxed as a public key.
#[derive(Clone, Copy, Debug, PartialEq, Eq, Hash)]
pub struct OverlayIdShort(pub [u8; 32]);

impl View for AdnlNodeIdFull {
    type V = Seq<u8>;

    open spec fn view(&self) -> Seq<u8> {
        self.0@
    }
}

impl View for AdnlNodeIdShort {
    type V = Seq<u8>;

    open spec fn view(&self) -> Seq<u8> {
        self.0@
    }
}

impl View for OverlayIdFull {
    type V = Seq<u8>;

    open spec fn view(&self) -> Seq<u8> {
        self.0@
    }
}

impl View for OverlayIdShort {
    type V = Seq<u8>;

    open spec fn view(&self) -> Seq<u8> {
        self.0@
    }
}

/// Short id that belongs to the Ed25519 public key `key`.
pub open spec fn node_short_id(key: Seq<u8>) -> Seq<u8> {
    sha256_digest(public_key_form(PublicKeyView::Ed25519 { key }))
}

/// Full id of the public overlay of `workchain` in the network whose zero
/// state has the file hash given.
pub open spec fn overlay_full_id(workchain: i32, zero_state_file_hash: Seq<u8>) -> Seq<u8> {
    sha256_digest(
        shard_public_overlay_form(workchain, WHOLE_WORKCHAIN_SHARD, zero_state_file_hash),
    )
}

/// Short id that belongs to the full overlay id `full_id`.
pub open spec fn overlay_short_id(full_id: Seq<u8>) -> Seq<u8> {
    sha256_digest(public_key_form(PublicKeyView::Overlay { name: full_id }))
}

impl AdnlNodeIdFull {
    /// The full id made of the public key `public_key`.
    pub fn new(public_key: [u8; 32]) -> (id: Self)
        ensures
            id@ == public_key@,
    {
        AdnlNodeIdFull(public_key)
    }

    /// The 32 bytes of the id.
    pub fn as_bytes(&self) -> (bytes: &[u8; 32])
        ensures
            bytes@ == self@,
    {
        &self.0
    }

    /// The short id of this node.
    pub fn compute_short_id(&self) -> (id: AdnlNodeIdShort)
        ensures
            id@ == node_short_id(self@),
    {
        let mut buffer: Vec<u8> = Vec::new();
        write_u32(&mut buffer, PUBLIC_KEY_ED25519_ID);
        write_int256(&mut buffer, &self.0);
        assert(buffer@ =~= public_key_form(PublicKeyView::Ed25519 { key: self@ }));
        AdnlNodeIdShort(sha256(buffer.as_slice()))
    }
}

impl AdnlNodeIdShort {
    /// The short id with the bytes `id`.
    pub fn new(id: [u8; 32]) -> (short: Self)
        ensures
            short@ == id@,
    {
        AdnlNodeIdShort(id)
    }

    /// The 32 bytes of the id.
    pub fn as_bytes(&self) -> (bytes: &[u8; 32])
        ensures
            bytes@ == self@,
    {
        &self.0
    }

    /// Whether `self` and `other` are the same id.
    pub fn is(&self, other: &AdnlNodeIdShort) -> (same: bool)
        ensures
            same == (self@ == other@),
    {
        bytes32_eq(&self.0, &other.0)
    }
}

impl OverlayIdFull {
    /// The full overlay id with the bytes `id`.
    pub fn new(id: [u8; 32]) -> (full: Self)
        ensures
            full@ == id@,
    {
        OverlayIdFull(id)
    }

    /// The 32 bytes of the id.
    pub fn as_bytes(&self) -> (bytes: &[u8; 32])
        ensures
            bytes@ == self@,
    {
        &self.0
    }

    /// The short id of this overlay.
    pub fn compute_short_id(&self) -> (id: OverlayIdShort)
        ensures
            id@ == overlay_short_id(self@),
    {
        let mut buffer: Vec<u8> = Vec::new();
        write_u32(&mut buffer, PUBLIC_KEY_OVERLAY_ID);
        write_bytes(&mut buffer, self.0.as_slice());
        assert(buffer@ =~= public_key_form(PublicKeyView::Overlay { name: self@ }));
        OverlayIdShort(sha256(buffer.as_slice()))
    }
}

impl OverlayIdShort {
    /// The short overlay id with the bytes `id`.
    pub fn new(id: [u8; 32]) -> (short: Self)
        ensures
            short@ == id@,
    {
        OverlayIdShort(id)
    }

    /// The 32 bytes of the id.
    pub fn as_bytes(&self) -> (bytes: &[u8; 32])
        ensures
            bytes@ == self@,
    {
        &self.0
    }

    /// Whether `self` and `other` are the same id.
    pub fn is(&self, other: &OverlayIdShort) -> (same: bool)
        ensures
            same == (self@ == other@),
    {
        bytes32_eq(&self.0, &other.0)
    }
}

/// Full id of the public overlay of `workchain`.
pub fn compute_overlay_id(workchain: i32, zero_state_file_hash: [u8; 32]) -> (id: OverlayIdFull)
    ensures
        id@ == overlay_full_id(workchain, zero_state_file_hash@),
{
    let record = ShardPublicOverlayId {
        workchain,
        shard: WHOLE_WORKCHAIN_SHARD,
        zero_state_file_hash,
    };
    let mut buffer: Vec<u8> = Vec::new();
    let _ = record.write_boxed(&mut buffer);
    assert(buffer@ =~= record.boxed_form());
    OverlayIdFull(sha256(buffer.as_slice()))
}

/// The private scalar that belongs to the secret key `secret`: the first
/// half of the secret's SHA-512 digest.
pub open spec fn private_key_part_of(secret: Seq<u8>) -> Seq<u8> {
    sha512_digest(secret).subrange(0, 32)
}

/// A local identity: the secret key with the private scalar and the ids
/// derived from it.
#[derive(Clone, Copy, Debug)]
pub struct StoredAdnlNodeKey {
    private_key: [u8; 32],
    private_key_part: [u8; 32],
    full_id: AdnlNodeIdFull,
    short_id: AdnlNodeIdShort,
}

impl StoredAdnlNodeKey {
    /// The secret key.
    pub closed spec fn spec_private_key(&self) -> Seq<u8> {
        self.private_key@
    }

    /// The full id.
    pub closed spec fn spec_full_id(&self) -> Seq<u8> {
        self.full_id@
    }

    /// The short id.
    pub closed spec fn spec_short_id(&self) -> Seq<u8> {
        self.short_id@
    }

    /// Every stored key carries the scalar and the ids that follow from its
    /// secret.
    #[verifier::type_invariant]
    pub closed spec fn inv(&self) -> bool {
        &&& self.private_key_part@ == private_key_part_of(self.private_key@)
        &&& self.full_id@ == ed25519_public(self.private_key@)
        &&& self.short_id@ == node_short_id(self.full_id@)
    }

    /// Derives the identity that belongs to `private_key`.
    pub fn from_private_key(private_key: [u8; 32]) -> (key: Self)
        ensures
            key.spec_private_key() == private_key@,
            key.spec_full_id() == ed25519_public(private_key@),
            key.spec_short_id() == node_short_id(ed25519_public(private_key@)),
    {
        let digest = sha512(private_key.as_slice());
        let mut private_key_part = [0u8; 32];
        let mut i: usize = 0;
        while i < 32
            invariant
                i <= 32,
                digest@.len() == 64,
                forall|k: int| 0 <= k < i ==> private_key_part@[k] == digest@[k],
            decreases 32 - i,
        {
            private_key_part[i] = digest[i];
            i += 1;
        }
        assert(private_key_part@ =~= private_key_part_of(private_key@));
        let full_id = AdnlNodeIdFull(ed25519_public_key(&private_key));
        let short_id = full_id.compute_short_id();
        StoredAdnlNodeKey { private_key, private_key_part, full_id, short_id }
    }

    /// A fresh identity from 32 random bytes, for one-time use.
    pub fn generate() -> (key: Self)
        ensures
            key.spec_full_id() == ed25519_public(key.spec_private_key()),
            key.spec_short_id() == node_short_id(key.spec_full_id()),
    {
        Self::from_private_key(gen_random_bytes32())
    }

    /// The private scalar, for key agreement.
    pub fn private_key_part(&self) -> (part: &[u8; 32])
        ensures
            part@ == private_key_part_of(self.spec_private_key()),
    {
        proof {
            use_type_invariant(self);
        }
        &self.private_key_part
    }

    /// The secret key.
    pub fn private_key(&self) -> (key: &[u8; 32])
        ensures
            key@ == self.spec_private_key(),
    {
        &self.private_key
    }

    /// The full id, which is the public key of the secret.
    pub fn full_id(&self) -> (id: &AdnlNodeIdFull)
        ensures
            id@ == self.spec_full_id(),
            id@ == ed25519_public(self.spec_private_key()),
    {
        proof {
            use_type_invariant(self);
        }
        &self.full_id
    }

    /// The short id, which is derived from the full id.
    pub fn id(&self) -> (id: &AdnlNodeIdShort)
        ensures
            id@ == self.spec_short_id(),
            id@ == node_short_id(self.spec_full_id()),
    {
        proof {
            use_type_invariant(self);
        }
        &self.short_id
    }
}

} // verus!
