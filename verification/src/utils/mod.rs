//! Hashing, key agreement, packet cipher keys and the serialization entry
//! points shared by every layer.
use vstd::prelude::*;
use vstd::slice::slice_subrange;
use std::time::{Duration, SystemTime, SystemTimeError};

pub mod failure;
pub mod handshake;
pub mod node_id;
pub mod queries_cache;
pub mod tl;

pub use self::failure::{Failure, NoFailure};

use self::tl::{BoxedDeserialize, BoxedSerialize, IntoBoxed, TlError};

verus! {

#[verifier::external_type_specification]
#[verifier::external_body]
pub struct ExSystemTime(SystemTime);

#[verifier::external_type_specification]
#[verifier::external_body]
pub struct ExSystemTimeError(SystemTimeError);

/// SHA-256 as a mathematical function from a message to its 32-byte digest.
pub uninterp spec fn sha256_digest(data: Seq<u8>) -> Seq<u8>;

/// SHA-512 as a mathematical function from a message to its 64-byte digest.
pub uninterp spec fn sha512_digest(data: Seq<u8>) -> Seq<u8>;

/// The u-coordinate on the Montgomery curve of the Edwards point that the 32
/// bytes `compressed` encode, or `None` when they encode no point.
pub uninterp spec fn edwards_to_montgomery(compressed: Seq<u8>) -> Option<Seq<u8>>;

/// The X25519 function of a scalar and a u-coordinate.
pub uninterp spec fn x25519_shared(scalar: Seq<u8>, point: Seq<u8>) -> Seq<u8>;

/// `data` with the AES-256-CTR keystream of `key` and `iv` applied from the
/// start of the stream.
pub uninterp spec fn aes256_ctr(key: Seq<u8>, iv: Seq<u8>, data: Seq<u8>) -> Seq<u8>;

/// Digest of `data`, computed by `sha2::Sha256::digest`.
///
/// Trusted: the result is the SHA-256 digest of exactly the bytes given.
#[verifier::external_body]
pub(crate) fn sha256(data: &[u8]) -> (digest: [u8; 32])
    ensures
        digest@ == sha256_digest(data@),
{
    <sha2::Sha256 as sha2::Digest>::digest(data).into()
}

/// Digest of `data`, computed by `sha2::Sha512::digest`.
///
/// Trusted: the result is the SHA-512 digest of exactly the bytes given.
#[verifier::external_body]
pub(crate) fn sha512(data: &[u8]) -> (digest: [u8; 64])
    ensures
        digest@ == sha512_digest(data@),
{
    <sha2::Sha512 as sha2::Digest>::digest(data).into()
}

/// Decompresses an Edwards point with
/// `curve25519_dalek::edwards::CompressedEdwardsY::decompress` and maps it to
/// the Montgomery curve with `EdwardsPoint::to_montgomery`.
///
/// Trusted: the outcome depends on the 32 bytes alone; it is `None` exactly
/// when they are not the encoding of a curve point.
#[verifier::external_body]
fn montgomery_point(compressed: &[u8; 32]) -> (point: Option<[u8; 32]>)
    ensures
        point.is_some() == edwards_to_montgomery(compressed@).is_some(),
        point.is_some() ==> point.unwrap()@ == edwards_to_montgomery(compressed@).unwrap(),
{
    let point = curve25519_dalek::edwards::CompressedEdwardsY(*compressed).decompress();
    point.map(|point| point.to_montgomery().to_bytes())
}

/// Scalar multiplication on the Montgomery curve by `x25519_dalek::x25519`.
///
/// Trusted: the result depends on the two arguments alone.
#[verifier::external_body]
fn x25519(scalar: &[u8; 32], point: &[u8; 32]) -> (shared: [u8; 32])
    ensures
        shared@ == x25519_shared(scalar@, point@),
{
    x25519_dalek::x25519(*scalar, *point)
}

/// Runs AES-256 in counter mode over `data`: `aes::Aes256Ctr::new` makes the
/// cipher from key and counter block, `apply_keystream` uses it once.
///
/// Trusted: the output has the length of the input and depends on key,
/// counter block and input alone.
#[verifier::external_body]
fn aes256_ctr_apply(key: &[u8; 32], iv: &[u8; 16], data: &mut Vec<u8>)
    ensures
        final(data)@ == aes256_ctr(key@, iv@, old(data)@),
        final(data)@.len() == old(data)@.len(),
{
    let key = generic_array::GenericArray::from_slice(key);
    let iv = generic_array::GenericArray::from_slice(iv);
    let mut cipher = <aes::Aes256Ctr as aes::cipher::NewCipher>::new(key, iv);
    aes::cipher::StreamCipher::apply_keystream(&mut cipher, data.as_mut_slice());
}

/// Overwrites `buffer` with bytes from `rand::thread_rng`.
///
/// Trusted: the length stays; nothing is known of the bytes.
#[verifier::external_body]
fn fill_random(buffer: &mut Vec<u8>)
    ensures
        final(buffer)@.len() == old(buffer)@.len(),
{
    rand::Rng::fill(&mut rand::thread_rng(), buffer.as_mut_slice());
}

/// A number below `bound`, drawn by `rand::Rng::gen_range` from
/// `rand::thread_rng`.
///
/// Trusted: the result lies in the range given. An empty range makes the
/// outside function panic, so it is left out.
#[verifier::external_body]
pub(crate) fn random_below(bound: usize) -> (drawn: usize)
    requires
        bound > 0,
    ensures
        drawn < bound,
{
    rand::Rng::gen_range(&mut rand::thread_rng(), 0..bound)
}

/// The system clock, read by `std::time::SystemTime::now`.
///
/// Trusted: nothing; the time is whatever the clock says.
#[verifier::external_body]
fn system_time_now() -> (time: SystemTime) {
    SystemTime::now()
}

/// Time elapsed between the Unix epoch and `time`, by
/// `std::time::SystemTime::duration_since`; an error for a clock set before
/// the epoch.
///
/// Trusted: nothing of the value.
#[verifier::external_body]
fn duration_since_epoch(time: &SystemTime) -> (elapsed: Result<Duration, SystemTimeError>) {
    time.duration_since(std::time::UNIX_EPOCH)
}

/// Whole seconds of `duration`, by `std::time::Duration::as_secs`.
///
/// Trusted: nothing of the value.
#[verifier::external_body]
fn duration_secs(duration: &Duration) -> (secs: u64) {
    duration.as_secs()
}

/// The key of the packet cipher: the first half of the shared secret, then
/// the second half of the checksum.
pub open spec fn packet_cipher_key(shared_secret: Seq<u8>, checksum: Seq<u8>) -> Seq<u8> {
    shared_secret.subrange(0, 16) + checksum.subrange(16, 32)
}

/// The initial counter block of the packet cipher: the first four bytes of the
/// checksum, then the last twelve bytes of the shared secret.
pub open spec fn packet_cipher_iv(shared_secret: Seq<u8>, checksum: Seq<u8>) -> Seq<u8> {
    checksum.subrange(0, 4) + shared_secret.subrange(20, 32)
}

/// The cipher of one packet: AES-256 in counter mode with key and counter
/// block derived from a shared secret and the packet's checksum.
#[derive(Clone, Copy, Debug)]
pub struct PacketCipher {
    key: [u8; 32],
    iv: [u8; 16],
}

impl PacketCipher {
    /// The AES key.
    pub closed spec fn spec_key(&self) -> Seq<u8> {
        self.key@
    }

    /// The initial counter block.
    pub closed spec fn spec_iv(&self) -> Seq<u8> {
        self.iv@
    }

    /// The AES key.
    pub fn key(&self) -> (key: &[u8; 32])
        ensures
            key@ == self.spec_key(),
    {
        &self.key
    }

    /// The initial counter block.
    pub fn iv(&self) -> (iv: &[u8; 16])
        ensures
            iv@ == self.spec_iv(),
    {
        &self.iv
    }

    /// Encrypts or decrypts `data` in place, from the start of the key stream.
    pub fn apply_keystream(&self, data: &mut Vec<u8>)
        ensures
            final(data)@ == aes256_ctr(self.spec_key(), self.spec_iv(), old(data)@),
            final(data)@.len() == old(data)@.len(),
    {
        aes256_ctr_apply(&self.key, &self.iv, data);
    }
}

/// 32 random bytes, for one-time keys and ids.
pub fn gen_random_bytes32() -> (bytes: [u8; 32]) {
    let mut buffer: Vec<u8> = Vec::new();
    while buffer.len() < 32
        invariant
            buffer@.len() <= 32,
        decreases 32 - buffer@.len(),
    {
        buffer.push(0u8);
    }
    fill_random(&mut buffer);
    let mut bytes = [0u8; 32];
    let mut i: usize = 0;
    while i < 32
        invariant
            i <= 32,
            buffer@.len() == 32,
        decreases 32 - i,
    {
        bytes[i] = buffer[i];
        i += 1;
    }
    bytes
}

/// Number of random bytes put in front of a packet's content.
pub const PACKET_OFFSET_SIZE: usize = 16;

/// Digest of the boxed form of the bare record `object`.
pub fn hash<T: IntoBoxed>(object: T) -> (digest: Result<[u8; 32], TlError>)
    ensures
        object.boxed().serializable() ==> digest.is_ok() && digest.unwrap()@ == sha256_digest(
            object.boxed().boxed_form(),
        ),
        !object.boxed().serializable() ==> digest == Err::<[u8; 32], TlError>(TlError::TooLong),
{
    let boxed = object.into_boxed();
    hash_boxed(&boxed)
}

/// Random bytes to put in front of a packet's content.
pub fn gen_packet_offset() -> (offset: Vec<u8>)
    ensures
        offset@.len() == PACKET_OFFSET_SIZE,
{
    let mut result: Vec<u8> = Vec::new();
    while result.len() < PACKET_OFFSET_SIZE
        invariant
            result@.len() <= PACKET_OFFSET_SIZE,
        decreases PACKET_OFFSET_SIZE - result@.len(),
    {
        result.push(0u8);
    }
    fill_random(&mut result);
    result
}

/// Derives the cipher of one packet from the secret shared with the peer and
/// the checksum of the packet's content.
pub fn build_packet_cipher(shared_secret: &[u8; 32], checksum: &[u8; 32]) -> (cipher: PacketCipher)
    ensures
        cipher.spec_key() == packet_cipher_key(shared_secret@, checksum@),
        cipher.spec_iv() == packet_cipher_iv(shared_secret@, checksum@),
{
    let mut key = [0u8; 32];
    let mut iv = [0u8; 16];
    let mut i: usize = 0;
    while i < 32
        invariant
            i <= 32,
            forall|k: int| 0 <= k < i && k < 16 ==> key@[k] == shared_secret@[k],
            forall|k: int| 16 <= k < i ==> key@[k] == checksum@[k],
        decreases 32 - i,
    {
        key[i] = if i < 16 {
            shared_secret[i]
        } else {
            checksum[i]
        };
        i += 1;
    }
    let mut j: usize = 0;
    while j < 16
        invariant
            j <= 16,
            forall|k: int| 0 <= k < j && k < 4 ==> iv@[k] == checksum@[k],
            forall|k: int| 4 <= k < j ==> iv@[k] == shared_secret@[k + 16],
        decreases 16 - j,
    {
        iv[j] = if j < 4 {
            checksum[j]
        } else {
            shared_secret[j + 16]
        };
        j += 1;
    }
    assert(key@ =~= packet_cipher_key(shared_secret@, checksum@));
    assert(iv@ =~= packet_cipher_iv(shared_secret@, checksum@));
    PacketCipher { key, iv }
}

/// The public key given is not the encoding of a curve point.
#[derive(Clone, Copy, Debug, PartialEq, Eq, Structural)]
pub struct BadPublicKeyData;

/// The secret that the holder of `private_key_part` shares with the holder of
/// the Ed25519 key `public_key`, given the Montgomery form of that key.
pub open spec fn shared_secret(private_key_part: Seq<u8>, public_key: Seq<u8>) -> Option<Seq<u8>> {
    match edwards_to_montgomery(public_key) {
        Some(point) => Some(x25519_shared(private_key_part, point)),
        None => None,
    }
}

/// Computes the secret shared with a peer from the local private scalar and
/// the peer's Ed25519 public key.
pub fn compute_shared_secret(private_key_part: &[u8; 32], public_key: &[u8; 32]) -> (secret:
    Result<[u8; 32], BadPublicKeyData>)
    ensures
        match shared_secret(private_key_part@, public_key@) {
            Some(expected) => secret.is_ok() && secret.unwrap()@ == expected,
            None => secret.is_err(),
        },
{
    match montgomery_point(public_key) {
        Some(point) => Ok(x25519(private_key_part, &point)),
        None => Err(BadPublicKeyData),
    }
}

/// Digest of the boxed form of `object`.
pub fn hash_boxed<T: BoxedSerialize>(object: &T) -> (digest: Result<[u8; 32], TlError>)
    ensures
        object.serializable() ==> digest.is_ok() && digest.unwrap()@ == sha256_digest(
            object.boxed_form(),
        ),
        !object.serializable() ==> digest == Err::<[u8; 32], TlError>(TlError::TooLong),
{
    match serialize(object) {
        Ok(bytes) => Ok(sha256(bytes.as_slice())),
        Err(error) => Err(error),
    }
}

/// The boxed form of `object` in a buffer of its own.
pub fn serialize<T: BoxedSerialize>(object: &T) -> (bytes: Result<Vec<u8>, TlError>)
    ensures
        object.serializable() ==> bytes.is_ok() && bytes.unwrap()@ == object.boxed_form(),
        !object.serializable() ==> bytes == Err::<Vec<u8>, TlError>(TlError::TooLong),
{
    let mut buffer: Vec<u8> = Vec::new();
    match object.write_boxed(&mut buffer) {
        Ok(()) => {
            assert(buffer@ =~= object.boxed_form());
            Ok(buffer)
        },
        Err(error) => Err(error),
    }
}

/// The boxed form of the bare record `object` in a buffer of its own.
pub fn serialize_boxed<T: IntoBoxed>(object: T) -> (bytes: Result<Vec<u8>, TlError>)
    ensures
        object.boxed().serializable() ==> bytes.is_ok() && bytes.unwrap()@
            == object.boxed().boxed_form(),
        !object.boxed().serializable() ==> bytes == Err::<Vec<u8>, TlError>(TlError::TooLong),
{
    let boxed = object.into_boxed();
    serialize(&boxed)
}

/// Appends the boxed form of `object` to `buffer`; on failure `buffer` is
/// left as it was.
pub fn serialize_append<T: BoxedSerialize>(buffer: &mut Vec<u8>, object: &T) -> (written: Result<
    (),
    TlError,
>)
    ensures
        object.serializable() ==> {
            &&& written == Ok::<(), TlError>(())
            &&& final(buffer)@ == old(buffer)@ + object.boxed_form()
        },
        !object.serializable() ==> {
            &&& written == Err::<(), TlError>(TlError::TooLong)
            &&& final(buffer)@ == old(buffer)@
        },
{
    object.write_boxed(buffer)
}

/// Replaces the content of `buffer` with the boxed form of `object`; on
/// failure `buffer` is left empty.
pub fn serialize_inplace<T: BoxedSerialize>(buffer: &mut Vec<u8>, object: &T) -> (written: Result<
    (),
    TlError,
>)
    ensures
        object.serializable() ==> {
            &&& written == Ok::<(), TlError>(())
            &&& final(buffer)@ == object.boxed_form()
        },
        !object.serializable() ==> {
            &&& written == Err::<(), TlError>(TlError::TooLong)
            &&& final(buffer)@ == Seq::<u8>::empty()
        },
{
    buffer.truncate(0);
    let written = serialize_append(buffer, object);
    assert(Seq::<u8>::empty() + object.boxed_form() =~= object.boxed_form());
    written
}

/// Reads one boxed object from the start of `bytes`; what follows it is
/// ignored.
pub fn deserialize<T: BoxedDeserialize>(bytes: &[u8]) -> (object: Result<T, TlError>)
    ensures
        match T::parse_boxed(bytes@) {
            Ok((expected, _)) => object.is_ok() && object.unwrap()@ == expected,
            Err(error) => object == Err::<T, TlError>(error),
        },
{
    match T::read_boxed(bytes) {
        Ok((object, _)) => Ok(object),
        Err(error) => Err(error),
    }
}

/// The objects that stand one after another at the start of `bytes`, up to
/// the first place where no object can be read.
pub open spec fn parse_bundle<T: BoxedDeserialize>(bytes: Seq<u8>) -> Seq<T::V>
    decreases bytes.len(),
{
    match T::parse_boxed(bytes) {
        Ok((object, used)) => if 0 < used <= bytes.len() {
            seq![object] + parse_bundle::<T>(bytes.skip(used))
        } else {
            Seq::empty()
        },
        Err(_) => Seq::empty(),
    }
}

/// The views of a run of objects.
pub open spec fn object_views<T: View>(objects: Seq<T>) -> Seq<T::V> {
    Seq::new(objects.len(), |i: int| objects[i]@)
}

/// Reads boxed objects from `bytes` one after another until one cannot be
/// read. Fails, with the error of the first read, when not even one object
/// is there.
pub fn deserialize_bundle<T: BoxedDeserialize>(bytes: &[u8]) -> (bundle: Result<Vec<T>, TlError>)
    ensures
        match T::parse_boxed(bytes@) {
            Ok(_) => bundle.is_ok() && object_views(bundle.unwrap()@) == parse_bundle::<T>(
                bytes@,
            ) && bundle.unwrap()@.len() > 0,
            Err(error) => bundle == Err::<Vec<T>, TlError>(error),
        },
{
    let mut result: Vec<T> = Vec::new();
    let mut position: usize = 0;
    proof {
        assert(bytes@.skip(0) =~= bytes@);
        assert(object_views(result@) + parse_bundle::<T>(bytes@) =~= parse_bundle::<T>(bytes@));
    }
    loop
        invariant
            position <= bytes@.len(),
            parse_bundle::<T>(bytes@) == object_views(result@) + parse_bundle::<T>(
                bytes@.skip(position as int),
            ),
            result@.len() == 0 ==> position == 0,
            result@.len() > 0 ==> T::parse_boxed(bytes@) is Ok,
        decreases bytes@.len() - position,
    {
        let rest = slice_subrange(bytes, position, bytes.len());
        assert(rest@ == bytes@.skip(position as int));
        proof {
            T::lemma_parse_boxed_bounds(rest@);
        }
        match T::read_boxed(rest) {
            Ok((object, used)) => {
                let ghost before = result@;
                result.push(object);
                proof {
                    assert(object_views(result@) =~= object_views(before).push(object@));
                    assert(bytes@.skip(position as int).skip(used as int) =~= bytes@.skip(
                        position + used,
                    ));
                    assert(bytes@.skip(0) =~= bytes@);
                }
                position = position + used;
            },
            Err(error) => {
                if result.len() == 0 {
                    assert(bytes@.skip(0) =~= bytes@);
                    return Err(error);
                }
                proof {
                    assert(object_views(result@) + Seq::<T::V>::empty() =~= object_views(
                        result@,
                    ));
                }
                return Ok(result);
            },
        }
    }
}

/// The 32-bit timestamp that stands for `secs` seconds since the epoch: the
/// low 32 bits, read as a signed number.
pub open spec fn timestamp_of(secs: u64) -> int {
    let low = secs % 0x1_0000_0000;
    if low < 0x8000_0000 {
        low as int
    } else {
        low - 0x1_0000_0000
    }
}

/// Narrows a count of seconds to the 32-bit timestamp used on the wire.
pub fn timestamp_from_secs(secs: u64) -> (timestamp: i32)
    ensures
        timestamp == timestamp_of(secs),
{
    let low = secs % 0x1_0000_0000;
    if low < 0x8000_0000 {
        low as i32
    } else {
        (low as i64 - 0x1_0000_0000) as i32
    }
}

/// The 32-bit timestamp that stands for a reading of the clock: that of the
/// whole seconds since the epoch, or zero for a clock that stands before the
/// epoch and gives no such count.
pub open spec fn timestamp_of_reading(reading: Option<u64>) -> int {
    match reading {
        Some(secs) => timestamp_of(secs),
        None => 0,
    }
}

/// Turns a reading of the clock into the 32-bit timestamp used on the wire.
/// `reading` is the count of whole seconds since the epoch, or nothing for a
/// clock that stands before the epoch.
pub fn timestamp_from_reading(reading: Option<u64>) -> (timestamp: i32)
    ensures
        timestamp == timestamp_of_reading(reading),
{
    match reading {
        Some(secs) => timestamp_from_secs(secs),
        None => 0,
    }
}

/// The current time as a 32-bit timestamp: what `timestamp_from_reading`
/// makes of the clock's reading.
pub fn now() -> (timestamp: i32) {
    let time = system_time_now();
    let reading = match duration_since_epoch(&time) {
        Ok(elapsed) => Some(duration_secs(&elapsed)),
        Err(_) => None,
    };
    timestamp_from_reading(reading)
}

} // verus!
