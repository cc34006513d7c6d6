//! The length-prefixed TL binary format: integers are little-endian, byte
//! strings carry a length prefix and are padded to a multiple of four.
use vstd::prelude::*;
use vstd::bytes::*;
use vstd::slice::*;

verus! {

/// Why a buffer could not be read or a value could not be written.
#[derive(Clone, Copy, Debug, PartialEq, Eq)]
pub enum TlError {
    /// The buffer ends before the value does.
    UnexpectedEof,
    /// The leading constructor id names no known object.
    UnknownConstructor,
    /// A length prefix that the format does not allow.
    InvalidData,
    /// A byte string too long for a 24-bit length prefix.
    TooLong,
}

/// Largest byte string that a TL length prefix can describe.
pub const MAX_TL_BYTES_LEN: usize = 0xff_ffff;

/// Number of zero bytes that pad `len` up to a multiple of four.
pub open spec fn tl_padding(len: int) -> int {
    (4 - len % 4) % 4
}

/// Length prefix of a byte string of `len` bytes.
pub open spec fn tl_bytes_prefix(len: int) -> Seq<u8> {
    if len < 254 {
        seq![len as u8]
    } else {
        seq![254u8, (len % 256) as u8, ((len / 256) % 256) as u8, ((len / 65536) % 256) as u8]
    }
}

/// TL form of a byte string: prefix, content, zero padding.
pub open spec fn tl_bytes(data: Seq<u8>) -> Seq<u8> {
    let prefix = tl_bytes_prefix(data.len() as int);
    prefix + data + Seq::new(tl_padding((prefix.len() + data.len()) as int) as nat, |i: int| 0u8)
}

/// TL form of a 32-bit integer.
pub open spec fn tl_u32(value: u32) -> Seq<u8> {
    spec_u32_to_le_bytes(value)
}

/// TL form of a 64-bit integer.
pub open spec fn tl_u64(value: u64) -> Seq<u8> {
    spec_u64_to_le_bytes(value)
}

/// Appends the TL form of `value`.
pub fn write_u32(buffer: &mut Vec<u8>, value: u32)
    ensures
        final(buffer)@ == old(buffer)@ + tl_u32(value),
        tl_u32(value).len() == 4,
{
    let bytes = u32_to_le_bytes(value);
    proof {
        lemma_auto_spec_u32_to_from_le_bytes();
    }
    buffer.extend_from_slice(bytes.as_slice());
}

/// Appends the TL form of `value`.
pub fn write_u64(buffer: &mut Vec<u8>, value: u64)
    ensures
        final(buffer)@ == old(buffer)@ + tl_u64(value),
        tl_u64(value).len() == 8,
{
    let bytes = u64_to_le_bytes(value);
    proof {
        lemma_auto_spec_u64_to_from_le_bytes();
    }
    buffer.extend_from_slice(bytes.as_slice());
}

/// Appends the 32 bytes of a 256-bit integer as they are.
pub fn write_int256(buffer: &mut Vec<u8>, value: &[u8; 32])
    ensures
        final(buffer)@ == old(buffer)@ + value@,
{
    buffer.extend_from_slice(value.as_slice());
}

/// Appends the TL form of the byte string `data`.
pub fn write_bytes(buffer: &mut Vec<u8>, data: &[u8])
    requires
        data@.len() <= MAX_TL_BYTES_LEN,
    ensures
        final(buffer)@ == old(buffer)@ + tl_bytes(data@),
{
    let len = data.len();
    let ghost before = buffer@;
    let prefix_len: usize;
    if len < 254 {
        buffer.push(len as u8);
        prefix_len = 1;
    } else {
        buffer.push(254u8);
        buffer.push((len % 256) as u8);
        buffer.push(((len / 256) % 256) as u8);
        buffer.push(((len / 65536) % 256) as u8);
        prefix_len = 4;
    }
    assert(buffer@ == before + tl_bytes_prefix(len as int));
    buffer.extend_from_slice(data);
    let padding = (4 - (prefix_len + len) % 4) % 4;
    let mut written: usize = 0;
    while written < padding
        invariant
            written <= padding,
            padding == tl_padding((prefix_len + len) as int),
            buffer@ == before + tl_bytes_prefix(len as int) + data@ + Seq::new(
                written as nat,
                |i: int| 0u8,
            ),
        decreases padding - written,
    {
        buffer.push(0u8);
        written += 1;
    }
}

} // verus!

verus! {

/// Reading a 32-bit integer from the start of `bytes`.
pub open spec fn parse_u32(bytes: Seq<u8>) -> Result<(u32, int), TlError> {
    if bytes.len() < 4 {
        Err(TlError::UnexpectedEof)
    } else {
        Ok((spec_u32_from_le_bytes(bytes.take(4)), 4))
    }
}

/// Reading a 256-bit integer from the start of `bytes`.
pub open spec fn parse_int256(bytes: Seq<u8>) -> Result<(Seq<u8>, int), TlError> {
    if bytes.len() < 32 {
        Err(TlError::UnexpectedEof)
    } else {
        Ok((bytes.take(32), 32))
    }
}

/// Reading a byte string from the start of `bytes`: the content and the
/// number of bytes that prefix, content and padding take together.
pub open spec fn parse_bytes(bytes: Seq<u8>) -> Result<(Seq<u8>, int), TlError> {
    if bytes.len() < 4 {
        Err(TlError::UnexpectedEof)
    } else if bytes[0] == 255 {
        Err(TlError::InvalidData)
    } else {
        let prefix: int = if bytes[0] == 254 {
            4
        } else {
            1
        };
        let len: int = if bytes[0] == 254 {
            bytes[1] + bytes[2] * 256 + bytes[3] * 65536
        } else {
            bytes[0] as int
        };
        let total = prefix + len + tl_padding(prefix + len);
        if bytes.len() < total {
            Err(TlError::UnexpectedEof)
        } else {
            Ok((bytes.subrange(prefix, prefix + len), total))
        }
    }
}

/// Reads a 32-bit integer from the start of `bytes`.
pub fn read_u32(bytes: &[u8]) -> (read: Result<(u32, usize), TlError>)
    ensures
        read matches Ok((value, used)) ==> parse_u32(bytes@) == Ok::<(u32, int), TlError>(
            (value, used as int),
        ),
        read matches Err(error) ==> parse_u32(bytes@) == Err::<(u32, int), TlError>(error),
{
    if bytes.len() < 4 {
        return Err(TlError::UnexpectedEof);
    }
    let head = slice_subrange(bytes, 0, 4);
    assert(head@ == bytes@.take(4));
    Ok((u32_from_le_bytes(head), 4))
}

/// Reads a 256-bit integer from the start of `bytes`.
pub fn read_int256(bytes: &[u8]) -> (read: Result<([u8; 32], usize), TlError>)
    ensures
        read matches Ok((value, used)) ==> parse_int256(bytes@) == Ok::<(Seq<u8>, int), TlError>(
            (value@, used as int),
        ),
        read matches Err(error) ==> parse_int256(bytes@) == Err::<(Seq<u8>, int), TlError>(error),
{
    if bytes.len() < 32 {
        return Err(TlError::UnexpectedEof);
    }
    let mut value = [0u8; 32];
    let mut i: usize = 0;
    while i < 32
        invariant
            i <= 32,
            bytes@.len() >= 32,
            forall|k: int| 0 <= k < i ==> value@[k] == bytes@[k],
        decreases 32 - i,
    {
        value[i] = bytes[i];
        i += 1;
    }
    assert(value@ =~= bytes@.take(32));
    Ok((value, 32))
}

/// Reads a byte string from the start of `bytes`.
pub fn read_bytes(bytes: &[u8]) -> (read: Result<(Vec<u8>, usize), TlError>)
    ensures
        read matches Ok((value, used)) ==> parse_bytes(bytes@) == Ok::<(Seq<u8>, int), TlError>(
            (value@, used as int),
        ),
        read matches Err(error) ==> parse_bytes(bytes@) == Err::<(Seq<u8>, int), TlError>(error),
{
    if bytes.len() < 4 {
        return Err(TlError::UnexpectedEof);
    }
    let first = bytes[0];
    if first == 255 {
        return Err(TlError::InvalidData);
    }
    let prefix: usize = if first == 254 {
        4
    } else {
        1
    };
    let len: usize = if first == 254 {
        bytes[1] as usize + (bytes[2] as usize) * 256 + (bytes[3] as usize) * 65536
    } else {
        first as usize
    };
    let padding = (4 - (prefix + len) % 4) % 4;
    let total = prefix + len + padding;
    if bytes.len() < total {
        return Err(TlError::UnexpectedEof);
    }
    let content = slice_subrange(bytes, prefix, prefix + len);
    Ok((slice_to_vec(content), total))
}

/// An object that has a boxed TL form: a constructor id followed by its
/// fields.
pub trait BoxedSerialize {
    /// The boxed form of the object.
    spec fn boxed_form(&self) -> Seq<u8>;

    /// Whether every field fits the format's limits.
    spec fn serializable(&self) -> bool;

    /// Appends the boxed form to `buffer`, or leaves `buffer` alone when a
    /// field is too long for the format.
    fn write_boxed(&self, buffer: &mut Vec<u8>) -> (written: Result<(), TlError>)
        ensures
            self.serializable() ==> {
                &&& written == Ok::<(), TlError>(())
                &&& final(buffer)@ == old(buffer)@ + self.boxed_form()
            },
            !self.serializable() ==> {
                &&& written == Err::<(), TlError>(TlError::TooLong)
                &&& final(buffer)@ == old(buffer)@
            },
    ;
}

/// A bare record that belongs to a boxed type.
pub trait IntoBoxed: Sized {
    type Boxed: BoxedSerialize;

    /// The boxed value that stands for `self`.
    spec fn boxed(self) -> Self::Boxed;

    fn into_boxed(self) -> (boxed: Self::Boxed)
        ensures
            boxed == self.boxed(),
    ;
}

/// An object that can be read from its boxed TL form.
pub trait BoxedDeserialize: Sized + View {
    /// The object at the start of `bytes` and the number of bytes it takes.
    spec fn parse_boxed(bytes: Seq<u8>) -> Result<(Self::V, int), TlError>;

    /// A boxed object takes at least its constructor id and never more than
    /// there is.
    proof fn lemma_parse_boxed_bounds(bytes: Seq<u8>)
        ensures
            Self::parse_boxed(bytes) matches Ok((_, used)) ==> 4 <= used <= bytes.len(),
    ;

    /// Reads one object from the start of `bytes`.
    fn read_boxed(bytes: &[u8]) -> (read: Result<(Self, usize), TlError>)
        ensures
            read matches Ok((value, used)) ==> Self::parse_boxed(bytes@) == Ok::<
                (Self::V, int),
                TlError,
            >((value@, used as int)),
            read matches Err(error) ==> Self::parse_boxed(bytes@) == Err::<
                (Self::V, int),
                TlError,
            >(error),
    ;
}

/// An object that can be written and read, such that reading gives back
/// what was written.
pub trait BoxedObject: BoxedSerialize + BoxedDeserialize {
    /// Reading the boxed form of an object gives back the object, whatever
    /// follows it, and takes exactly the bytes of the boxed form.
    proof fn lemma_round_trip(&self, rest: Seq<u8>)
        requires
            self.serializable(),
        ensures
            Self::parse_boxed(self.boxed_form() + rest) == Ok::<(Self::V, int), TlError>(
                (self@, self.boxed_form().len() as int),
            ),
    ;
}

/// Reading is the inverse of writing: what `serialize` gives for an object,
/// `deserialize` reads back as that object.
pub proof fn lemma_deserialize_inverts_serialize<T: BoxedObject>(object: T)
    requires
        object.serializable(),
    ensures
        T::parse_boxed(object.boxed_form()) == Ok::<(T::V, int), TlError>(
            (object@, object.boxed_form().len() as int),
        ),
{
    object.lemma_round_trip(Seq::empty());
    assert(object.boxed_form() + Seq::<u8>::empty() =~= object.boxed_form());
}

/// Reading a 32-bit integer gives back the value that was written, whatever
/// follows it.
pub proof fn lemma_u32_round_trip(value: u32, rest: Seq<u8>)
    ensures
        tl_u32(value).len() == 4,
        parse_u32(tl_u32(value) + rest) == Ok::<(u32, int), TlError>((value, 4)),
{
    lemma_auto_spec_u32_to_from_le_bytes();
    assert((tl_u32(value) + rest).take(4) =~= tl_u32(value));
}

/// Reading a byte string gives back the content that was written, whatever
/// follows it, and takes exactly the bytes that were written.
pub proof fn lemma_bytes_round_trip(data: Seq<u8>, rest: Seq<u8>)
    requires
        data.len() <= MAX_TL_BYTES_LEN,
    ensures
        tl_bytes(data).len() % 4 == 0,
        parse_bytes(tl_bytes(data) + rest) == Ok::<(Seq<u8>, int), TlError>(
            (data, tl_bytes(data).len() as int),
        ),
{
    let len = data.len() as int;
    let prefix = tl_bytes_prefix(len);
    let written = tl_bytes(data);
    let bytes = written + rest;
    let padding = tl_padding(prefix.len() + len);
    assert(written.len() == prefix.len() + len + padding);
    if len < 254 {
        assert(bytes[0] == len as u8);
        assert(bytes.subrange(1, 1 + len) =~= data);
    } else {
        assert(bytes[0] == 254u8);
        assert(bytes[1] == (len % 256) as u8);
        assert(bytes[2] == ((len / 256) % 256) as u8);
        assert(bytes[3] == ((len / 65536) % 256) as u8);
        assert(len == len % 256 + ((len / 256) % 256) * 256 + ((len / 65536) % 256) * 65536);
        assert(bytes.subrange(4, 4 + len) =~= data);
    }
}

} // verus!
