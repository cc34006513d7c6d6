//! Broadcasts whose payload arrives as RaptorQ symbols: the bookkeeping of
//! one shard's transfers.
use vstd::prelude::*;
use crate::proto::BroadcastFec;
use crate::rldp_node::decoder::{
    decoder_data_size, decoder_symbols, seqno_usable, symbol_id, symbol_id_of, MAX_FEC_DATA_SIZE,
};
use crate::rldp_node::encoder::{symbols_needed, RaptorQFecType, MAX_TRANSMISSION_UNIT};
use crate::utils::node_id::node_short_id;
use crate::utils::sha256_digest;
use crate::utils::tl::{tl_u32, write_int256, write_u32};

verus! {

/// Constructor id of the id record of a broadcast sent as symbols.
pub const BROADCAST_FEC_ID: u32 = 0xfb3155a6;

/// Constructor id of the RaptorQ parameters record.
pub const FEC_RAPTORQ_ID: u32 = 0x8b93a7e0;

/// How far a transfer has come.
#[derive(Clone, Copy, Debug, PartialEq, Eq, Structural)]
pub enum TransferState {
    /// Symbols are still being collected.
    Receiving,
    /// The payload was rebuilt and handed on.
    Completed,
    /// The payload did not arrive in time or was not genuine.
    Failed,
}

/// One broadcast in reassembly.
#[derive(Debug)]
pub struct BroadcastTransfer {
    pub hash: [u8; 32],
    pub data_hash: [u8; 32],
    pub data_size: u32,
    pub deadline: u64,
    pub state: TransferState,
    pub decoder: Option<raptorq::Decoder>,
}

/// What a transfer is: its parameters, its state, and the symbols that its
/// decoder has been handed. A transfer that is over has no decoder and holds
/// no symbols.
pub struct TransferView {
    pub hash: Seq<u8>,
    pub data_hash: Seq<u8>,
    pub data_size: u32,
    pub deadline: u64,
    pub state: TransferState,
    pub symbols: Seq<(u32, Seq<u8>)>,
}

impl View for BroadcastTransfer {
    type V = TransferView;

    open spec fn view(&self) -> TransferView {
        TransferView {
            hash: self.hash@,
            data_hash: self.data_hash@,
            data_size: self.data_size,
            deadline: self.deadline,
            state: self.state,
            symbols: match self.decoder {
                Some(decoder) => decoder_symbols(decoder),
                None => Seq::empty(),
            },
        }
    }
}

impl BroadcastTransfer {
    /// A transfer that collects symbols has a decoder for its payload size.
    pub open spec fn wf(&self) -> bool {
        self.state == TransferState::Receiving ==> {
            &&& 0 < self.data_size <= MAX_FEC_DATA_SIZE
            &&& self.decoder.is_some()
            &&& decoder_data_size(self.decoder.unwrap()) == self.data_size
        }
    }
}

/// The views of a run of transfers.
pub open spec fn transfer_views(transfers: Seq<BroadcastTransfer>) -> Seq<TransferView> {
    Seq::new(transfers.len(), |i: int| transfers[i]@)
}

/// Whether `transfers` holds the transfer with the hash `hash`.
pub open spec fn has_transfer(transfers: Seq<TransferView>, hash: Seq<u8>) -> bool {
    exists|i: int| 0 <= i < transfers.len() && (#[trigger] transfers[i]).hash == hash
}

/// Where the transfer with the hash `hash` stands.
pub open spec fn transfer_position(transfers: Seq<TransferView>, hash: Seq<u8>) -> int {
    choose|i: int| 0 <= i < transfers.len() && (#[trigger] transfers[i]).hash == hash
}

/// No hash has two transfers.
pub open spec fn transfers_unique(transfers: Seq<TransferView>) -> bool {
    forall|i: int, j: int|
        0 <= i < j < transfers.len() ==> (#[trigger] transfers[i]).hash != (
        #[trigger] transfers[j]).hash
}

/// With one transfer per hash, the position of a hash is the one place that
/// holds it.
pub proof fn lemma_transfer_position(transfers: Seq<TransferView>, hash: Seq<u8>, i: int)
    requires
        transfers_unique(transfers),
        0 <= i < transfers.len(),
        transfers[i].hash == hash,
    ensures
        has_transfer(transfers, hash),
        transfer_position(transfers, hash) == i,
{
    let j = transfer_position(transfers, hash);
    if j < i {
        assert(transfers[j].hash != transfers[i].hash);
    } else if i < j {
        assert(transfers[i].hash != transfers[j].hash);
    }
}

/// Boxed form of RaptorQ parameters.
pub open spec fn fec_type_form(fec: RaptorQFecType) -> Seq<u8> {
    tl_u32(FEC_RAPTORQ_ID) + tl_u32(fec.data_size) + tl_u32(fec.symbol_size) + tl_u32(
        fec.symbols_count,
    )
}

/// Id record of a broadcast sent as symbols.
pub open spec fn broadcast_fec_id_form(
    source: Seq<u8>,
    fec_type_hash: Seq<u8>,
    data_hash: Seq<u8>,
    data_size: u32,
    flags: i32,
) -> Seq<u8> {
    tl_u32(BROADCAST_FEC_ID) + source + fec_type_hash + data_hash + tl_u32(data_size) + tl_u32(
        flags as u32,
    )
}

/// The hash that identifies a broadcast sent as symbols: every symbol of the
/// broadcast gives the same one.
pub open spec fn broadcast_fec_hash(
    src: Seq<u8>,
    data_hash: Seq<u8>,
    data_size: u32,
    flags: i32,
    fec: RaptorQFecType,
) -> Seq<u8> {
    sha256_digest(
        broadcast_fec_id_form(
            node_short_id(src),
            sha256_digest(fec_type_form(fec)),
            data_hash,
            data_size,
            flags,
        ),
    )
}

/// Whether a symbol is one that a transfer can take: the parameters are
/// those of a payload of at most `max_size` bytes cut into full-size symbols
/// of a single block, and the symbol is a full one whose number stands for
/// an encoding symbol id that the decoder can take.
pub open spec fn fec_symbol_acceptable(
    data_size: u32,
    fec: RaptorQFecType,
    seqno: u32,
    symbol_len: int,
    max_size: u32,
) -> bool {
    &&& 0 < data_size <= max_size
    &&& data_size <= MAX_FEC_DATA_SIZE
    &&& fec.data_size == data_size
    &&& fec.symbol_size == MAX_TRANSMISSION_UNIT
    &&& fec.symbols_count == symbols_needed(data_size as int, MAX_TRANSMISSION_UNIT as int)
    &&& seqno_usable(seqno, fec.symbols_count)
    &&& symbol_len == MAX_TRANSMISSION_UNIT
}

/// Decides whether a symbol is one that a transfer can take, and if so
/// works out its encoding symbol id.
pub fn check_fec_symbol(broadcast: &BroadcastFec, max_size: u32) -> (id: Option<u32>)
    ensures
        fec_symbol_acceptable(
            broadcast.data_size,
            broadcast.fec,
            broadcast.seqno,
            broadcast.data@.len() as int,
            max_size,
        ) ==> id == Some(symbol_id_of(broadcast.seqno, broadcast.fec.symbols_count) as u32),
        !fec_symbol_acceptable(
            broadcast.data_size,
            broadcast.fec,
            broadcast.seqno,
            broadcast.data@.len() as int,
            max_size,
        ) ==> id.is_none(),
{
    if broadcast.data_size == 0 || broadcast.data_size > max_size || broadcast.data_size
        > MAX_FEC_DATA_SIZE {
        return None;
    }
    let needed = (broadcast.data_size - 1) / MAX_TRANSMISSION_UNIT + 1;
    assert(needed == symbols_needed(broadcast.data_size as int, MAX_TRANSMISSION_UNIT as int));
    if broadcast.fec.data_size != broadcast.data_size || broadcast.fec.symbol_size
        != MAX_TRANSMISSION_UNIT || broadcast.fec.symbols_count != needed || broadcast.data.len()
        != MAX_TRANSMISSION_UNIT as usize {
        return None;
    }
    symbol_id(broadcast.seqno, needed)
}

/// Writes the boxed form of RaptorQ parameters.
pub fn write_fec_type(buffer: &mut Vec<u8>, fec: &RaptorQFecType)
    ensures
        final(buffer)@ == old(buffer)@ + fec_type_form(*fec),
{
    write_u32(buffer, FEC_RAPTORQ_ID);
    write_u32(buffer, fec.data_size);
    write_u32(buffer, fec.symbol_size);
    write_u32(buffer, fec.symbols_count);
    assert(buffer@ =~= old(buffer)@ + fec_type_form(*fec));
}

/// Writes the id record of a broadcast sent as symbols.
pub fn write_broadcast_fec_id(
    buffer: &mut Vec<u8>,
    source: &[u8; 32],
    fec_type_hash: &[u8; 32],
    data_hash: &[u8; 32],
    data_size: u32,
    flags: i32,
)
    ensures
        final(buffer)@ == old(buffer)@ + broadcast_fec_id_form(
            source@,
            fec_type_hash@,
            data_hash@,
            data_size,
            flags,
        ),
{
    write_u32(buffer, BROADCAST_FEC_ID);
    write_int256(buffer, source);
    write_int256(buffer, fec_type_hash);
    write_int256(buffer, data_hash);
    write_u32(buffer, data_size);
    write_u32(buffer, flags as u32);
    assert(buffer@ =~= old(buffer)@ + broadcast_fec_id_form(
        source@,
        fec_type_hash@,
        data_hash@,
        data_size,
        flags,
    ));
}

/// The state of a transfer once its decoder has answered: it keeps
/// collecting while no payload is there; a payload that has the announced
/// digest and comes with a valid signature completes it; any other payload
/// fails it.
pub open spec fn settled_state(payload: Option<Seq<u8>>, data_hash: Seq<u8>, signed: bool) -> TransferState {
    match payload {
        None => TransferState::Receiving,
        Some(payload) => if sha256_digest(payload) == data_hash && signed {
            TransferState::Completed
        } else {
            TransferState::Failed
        },
    }
}

/// Decides what becomes of a transfer once its decoder has answered.
pub fn settle_transfer(payload: &Option<Vec<u8>>, data_hash: &[u8; 32], signed: bool) -> (state:
    TransferState)
    ensures
        state == settled_state(
            match payload {
                Some(payload) => Some(payload@),
                None => None,
            },
            data_hash@,
            signed,
        ),
{
    match payload {
        None => TransferState::Receiving,
        Some(payload) => {
            let digest = crate::utils::sha256(payload.as_slice());
            if crate::utils::node_id::bytes32_eq(&digest, data_hash) && signed {
                TransferState::Completed
            } else {
                TransferState::Failed
            }
        },
    }
}

} // verus!
