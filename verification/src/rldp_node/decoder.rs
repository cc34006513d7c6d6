//! The receiving side of a forward-error-corrected transfer: the RaptorQ
//! decoder and what is known of it.
use vstd::prelude::*;
use crate::rldp_node::encoder::{
    check_symbol_id, extended_block_symbols, extended_symbols, symbol_id_usable, symbols_needed,
    MAX_ENCODING_SYMBOL_ID, MAX_SOURCE_SYMBOLS_PER_BLOCK, MAX_TRANSMISSION_UNIT,
};

verus! {

/// Largest payload that fits one RaptorQ source block of full-size symbols.
pub const MAX_FEC_DATA_SIZE: u32 = 43_317_504;

#[verifier::external_type_specification]
#[verifier::external_body]
pub struct ExDecoder(raptorq::Decoder);

/// The payload size that a decoder was made for.
pub uninterp spec fn decoder_data_size(decoder: raptorq::Decoder) -> nat;

/// The symbols that a decoder has been handed, each with its encoding symbol
/// id, in the order in which they came.
pub uninterp spec fn decoder_symbols(decoder: raptorq::Decoder) -> Seq<(u32, Seq<u8>)>;

/// What a decoder for a payload of `data_size` bytes, cut into symbols of a
/// full transmission unit, answers once it has been handed `symbols`, the
/// last of them just now: the payload, if the symbols suffice to rebuild it.
pub uninterp spec fn decoder_answer(data_size: nat, symbols: Seq<(u32, Seq<u8>)>) -> Option<
    Seq<u8>,
>;

/// Number of source symbols of a payload of `data_size` bytes.
pub open spec fn source_symbols_of(data_size: nat) -> u32 {
    symbols_needed(data_size as int, MAX_TRANSMISSION_UNIT as int) as u32
}

/// The encoding symbol id of the symbol that travels under the number
/// `seqno` in a transfer of `symbols_count` source symbols. A number below
/// the count is that of a source symbol, which is its id. Any other number
/// is the one that the sender's encoder was asked with for a repair symbol,
/// whose id lies behind the extended block.
pub open spec fn symbol_id_of(seqno: u32, symbols_count: u32) -> int {
    if seqno < symbols_count {
        seqno as int
    } else {
        seqno + extended_block_symbols(symbols_count)
    }
}

/// Whether the symbol that travels under the number `seqno` is one that a
/// decoder for `symbols_count` source symbols can take.
pub open spec fn seqno_usable(seqno: u32, symbols_count: u32) -> bool {
    symbol_id_usable(extended_block_symbols(symbols_count), symbol_id_of(seqno, symbols_count))
}

/// The view of a payload that a decoder gave, if it gave one.
pub open spec fn payload_view(payload: Option<Vec<u8>>) -> Option<Seq<u8>> {
    match payload {
        Some(payload) => Some(payload@),
        None => None,
    }
}

/// Works out the encoding symbol id of the symbol that travels under the
/// number `seqno`, if a decoder for `symbols_count` source symbols can take
/// it.
pub fn symbol_id(seqno: u32, symbols_count: u32) -> (id: Option<u32>)
    requires
        symbols_count <= MAX_SOURCE_SYMBOLS_PER_BLOCK,
    ensures
        seqno_usable(seqno, symbols_count) ==> id == Some(
            symbol_id_of(seqno, symbols_count) as u32,
        ),
        !seqno_usable(seqno, symbols_count) ==> id.is_none(),
{
    let extended = extended_symbols(symbols_count);
    let id = if seqno < symbols_count {
        seqno
    } else if seqno > MAX_ENCODING_SYMBOL_ID - extended {
        return None;
    } else {
        seqno + extended
    };
    if check_symbol_id(extended, id) {
        Some(id)
    } else {
        None
    }
}

/// Makes a decoder with `raptorq::Decoder::new`, for the parameters that
/// `raptorq::ObjectTransmissionInformation::with_defaults` gives.
///
/// Trusted: the decoder is made for a payload of `data_size` bytes and has
/// been handed no symbol. A size of zero makes the outside function divide
/// by zero, so it is left out; up to the bound the payload is a single
/// source block.
#[verifier::external_body]
pub(crate) fn decoder_new(data_size: u32, mtu: u16) -> (decoder: raptorq::Decoder)
    requires
        0 < data_size <= MAX_FEC_DATA_SIZE,
        mtu == MAX_TRANSMISSION_UNIT,
    ensures
        decoder_data_size(decoder) == data_size,
        decoder_symbols(decoder) == Seq::<(u32, Seq<u8>)>::empty(),
{
    let config = raptorq::ObjectTransmissionInformation::with_defaults(data_size as u64, mtu);
    raptorq::Decoder::new(config)
}

/// Hands one symbol of the source block `block` to
/// `raptorq::Decoder::decode`.
///
/// Trusted: the decoder stays one for the same payload size and has been
/// handed one symbol more. Its answer depends only on the payload size and
/// on the symbols handed to it so far, and a payload that comes back has
/// that size. A block that the payload does not have, a symbol that is not
/// a full transmission unit, an id of 2^24 or more and, where arithmetic is
/// checked, one of the two ids for which the tuple generator's 32-bit sum
/// overflows make the outside function panic, so they are left out; a
/// payload up to the bound has the one block 0.
#[verifier::external_body]
pub(crate) fn decoder_decode(
    decoder: &mut raptorq::Decoder,
    block: u8,
    encoding_symbol_id: u32,
    data: Vec<u8>,
) -> (payload: Option<Vec<u8>>)
    requires
        0 < decoder_data_size(*old(decoder)) <= MAX_FEC_DATA_SIZE,
        block == 0,
        symbol_id_usable(
            extended_block_symbols(source_symbols_of(decoder_data_size(*old(decoder)))),
            encoding_symbol_id as int,
        ),
        data@.len() == MAX_TRANSMISSION_UNIT,
    ensures
        decoder_data_size(*final(decoder)) == decoder_data_size(*old(decoder)),
        decoder_symbols(*final(decoder)) == decoder_symbols(*old(decoder)).push(
            (encoding_symbol_id, data@),
        ),
        payload_view(payload) == decoder_answer(
            decoder_data_size(*old(decoder)),
            decoder_symbols(*old(decoder)).push((encoding_symbol_id, data@)),
        ),
        payload.is_some() ==> payload.unwrap()@.len() == decoder_data_size(*old(decoder)),
{
    let id = raptorq::PayloadId::new(block, encoding_symbol_id);
    decoder.decode(raptorq::EncodingPacket::new(id, data))
}

} // verus!
