//! The sending side of a forward-error-corrected transfer.
//!
//! A payload is cut into source symbols, grouped in blocks. The encoder hands
//! out every source symbol once and after that an endless supply of repair
//! symbols, taking the blocks in turn.
use vstd::prelude::*;

verus! {

/// Size in bytes of one transmitted symbol.
pub const MAX_TRANSMISSION_UNIT: u32 = 768;

/// Largest encoding symbol id: ids are 24-bit numbers.
pub const MAX_ENCODING_SYMBOL_ID: u32 = 0xff_ffff;

/// Largest number of source symbols in one block.
pub const MAX_SOURCE_SYMBOLS_PER_BLOCK: u32 = 56403;

#[verifier::external_type_specification]
#[verifier::external_body]
pub struct ExEngine(raptorq::Encoder);

/// Parameters that a receiver needs to set up its decoder.
#[derive(Clone, Copy, Debug, PartialEq, Eq, Structural)]
pub struct RaptorQFecType {
    pub data_size: u32,
    pub symbol_size: u32,
    pub symbols_count: u32,
}

/// Why no packet was produced.
#[derive(Clone, Copy, Debug, PartialEq, Eq, Structural)]
pub enum EncoderError {
    /// The repair symbol asked for has an encoding symbol id that cannot be
    /// used: it lies beyond the 24-bit id space, or it is one of the two ids
    /// that the engine cannot derive a symbol for.
    FailedToEncode,
}

/// One encoded symbol with the id under which a decoder takes it.
#[derive(Debug)]
pub struct SymbolPacket {
    pub encoding_symbol_id: u32,
    pub data: Vec<u8>,
}

impl View for SymbolPacket {
    type V = (u32, Seq<u8>);

    open spec fn view(&self) -> (u32, Seq<u8>) {
        (self.encoding_symbol_id, self.data@)
    }
}

/// The source symbols that an engine holds: one sequence of symbols per block,
/// blocks and symbols in the engine's own order.
pub uninterp spec fn engine_source_symbols(engine: raptorq::Encoder) -> Seq<Seq<Seq<u8>>>;

/// The repair symbol that an engine derives for `block` and `repair_symbol_id`.
pub uninterp spec fn engine_repair_symbol(
    engine: raptorq::Encoder,
    block: int,
    repair_symbol_id: u32,
) -> Seq<u8>;

/// The size in bytes of the symbols that an engine makes.
pub uninterp spec fn engine_symbol_size(engine: raptorq::Encoder) -> nat;

/// The source blocks into which RaptorQ's default parameters cut `data` for
/// packets of at most `mtu` bytes.
pub uninterp spec fn raptorq_source_blocks(data: Seq<u8>, mtu: u16) -> Seq<Seq<Seq<u8>>>;

/// The extended block size K' that RaptorQ assigns to a block of
/// `source_symbols` symbols.
pub uninterp spec fn extended_block_symbols(source_symbols: u32) -> u32;

/// Whether a symbol with the encoding symbol id `id` can be made or taken in
/// a block of the extended size `extended`.
///
/// An id has 24 bits. Besides, the engine derives a 32-bit number from the
/// id and the block's systematic index and adds small numbers to it; for two
/// pairs of block size and id that sum does not fit, and those are left out.
pub open spec fn symbol_id_usable(extended: u32, id: int) -> bool {
    &&& 0 <= id <= MAX_ENCODING_SYMBOL_ID
    &&& !(extended == 989 && id == 3_158_229)
    &&& !(extended == 2195 && id == 8_192_877)
}

/// Decides whether a symbol with the encoding symbol id `id` can be made or
/// taken in a block of the extended size `extended`.
pub fn check_symbol_id(extended: u32, id: u32) -> (usable: bool)
    ensures
        usable == symbol_id_usable(extended, id as int),
{
    id <= MAX_ENCODING_SYMBOL_ID && !(extended == 989 && id == 3_158_229) && !(extended == 2195
        && id == 8_192_877)
}

/// Number of symbols in all `blocks` together.
pub open spec fn symbol_count(blocks: Seq<Seq<Seq<u8>>>) -> nat
    decreases blocks.len(),
{
    if blocks.len() == 0 {
        0
    } else {
        symbol_count(blocks.drop_last()) + blocks.last().len()
    }
}

/// Number of symbols of `symbol_size` bytes needed to hold `data_size` bytes.
pub open spec fn symbols_needed(data_size: int, symbol_size: int) -> int {
    (data_size + symbol_size - 1) / symbol_size
}

/// The source packets of one block: symbol `k` travels under id `k`.
pub open spec fn block_packets(block: Seq<Seq<u8>>) -> Seq<(u32, Seq<u8>)> {
    Seq::new(block.len(), |k: int| (k as u32, block[k]))
}

/// The queue of source packets: each block's packets in reverse, the blocks
/// one after another. Packets leave the queue from its end.
pub open spec fn source_queue(blocks: Seq<Seq<Seq<u8>>>) -> Seq<(u32, Seq<u8>)>
    decreases blocks.len(),
{
    if blocks.len() == 0 {
        Seq::empty()
    } else {
        source_queue(blocks.drop_last()) + block_packets(blocks.last()).reverse()
    }
}

/// The views of a run of packets.
pub open spec fn packet_views(packets: Seq<SymbolPacket>) -> Seq<(u32, Seq<u8>)> {
    Seq::new(packets.len(), |i: int| packets[i]@)
}

/// Builds the engine with `raptorq::Encoder::with_defaults`.
///
/// Trusted: the engine cuts `data` into the blocks that the default
/// parameters give; there is at least one block, no block has more than
/// 56403 symbols, and together they hold `ceil(len / mtu)` symbols. The
/// engine makes symbols of `mtu` bytes, and every source symbol has that
/// size, the last one being filled up with zeros. Empty input makes the
/// outside function divide by zero, so it is left out.
#[verifier::external_body]
fn engine_with_defaults(data: &[u8], mtu: u16) -> (engine: raptorq::Encoder)
    requires
        0 < data@.len() <= u32::MAX,
        mtu == MAX_TRANSMISSION_UNIT,
    ensures
        engine_source_symbols(engine) == raptorq_source_blocks(data@, mtu),
        engine_source_symbols(engine).len() > 0,
        symbol_count(engine_source_symbols(engine)) == symbols_needed(
            data@.len() as int,
            mtu as int,
        ),
        forall|b: int|
            0 <= b < engine_source_symbols(engine).len() ==> (
            #[trigger] engine_source_symbols(engine)[b]).len() <= MAX_SOURCE_SYMBOLS_PER_BLOCK,
        engine_symbol_size(engine) == mtu,
        forall|b: int, k: int|
            0 <= b < engine_source_symbols(engine).len() && 0 <= k < engine_source_symbols(
                engine,
            )[b].len() ==> (#[trigger] engine_source_symbols(engine)[b][k]).len() == mtu,
{
    raptorq::Encoder::with_defaults(data, mtu)
}

/// Number of blocks, read from `raptorq::Encoder::get_block_encoders`.
///
/// Trusted: the engine has one block encoder per source block.
#[verifier::external_body]
fn engine_block_count(engine: &raptorq::Encoder) -> (count: usize)
    ensures
        count == engine_source_symbols(*engine).len(),
{
    engine.get_block_encoders().len()
}

/// The source packets of one block, from
/// `raptorq::SourceBlockEncoder::source_packets`.
///
/// Trusted: the block yields one packet per source symbol, in order; packet
/// `k` has encoding symbol id `k` and carries symbol `k`.
#[verifier::external_body]
fn engine_source_packets(engine: &raptorq::Encoder, block: usize) -> (packets: Vec<SymbolPacket>)
    requires
        block < engine_source_symbols(*engine).len(),
    ensures
        packet_views(packets@) == block_packets(engine_source_symbols(*engine)[block as int]),
{
    let packets = engine.get_block_encoders()[block].source_packets();
    packets.into_iter().map(
        |packet|
            {
                let (id, data) = packet.split();
                SymbolPacket { encoding_symbol_id: id.encoding_symbol_id(), data }
            },
    ).collect()
}

/// One repair packet of one block, from
/// `raptorq::SourceBlockEncoder::repair_packets` asked for a single packet.
///
/// Trusted: exactly one packet comes back; its encoding symbol id is the
/// repair id plus the block's extended size K', its content depends only on
/// the engine, the block and the repair id, and it has the engine's symbol
/// size. An encoding symbol id of 2^24 or more makes the outside function
/// panic, and so does, where arithmetic is checked, one of the two ids for
/// which the tuple generator's 32-bit sum overflows; they are left out.
#[verifier::external_body]
fn engine_repair_packet(engine: &raptorq::Encoder, block: usize, repair_symbol_id: u32) -> (packet:
    Option<SymbolPacket>)
    requires
        block < engine_source_symbols(*engine).len(),
        engine_source_symbols(*engine)[block as int].len() <= MAX_SOURCE_SYMBOLS_PER_BLOCK,
        symbol_id_usable(
            extended_block_symbols(engine_source_symbols(*engine)[block as int].len() as u32),
            repair_symbol_id + extended_block_symbols(
                engine_source_symbols(*engine)[block as int].len() as u32,
            ),
        ),
    ensures
        packet.is_some(),
        packet.unwrap().data@.len() == engine_symbol_size(*engine),
        packet.unwrap()@ == (
            (repair_symbol_id + extended_block_symbols(
                engine_source_symbols(*engine)[block as int].len() as u32,
            )) as u32,
            engine_repair_symbol(*engine, block as int, repair_symbol_id),
        ),
{
    let packet = engine.get_block_encoders()[block].repair_packets(repair_symbol_id, 1).pop();
    packet.map(
        |packet|
            {
                let (id, data) = packet.split();
                SymbolPacket { encoding_symbol_id: id.encoding_symbol_id(), data }
            },
    )
}

/// The extended block size, looked up by
/// `raptorq::extended_source_block_symbols`.
///
/// Trusted: the result is the smallest supported block size that is not below
/// the argument, hence between the argument and 56403. A larger argument
/// makes the outside function panic, so it is left out.
#[verifier::external_body]
pub(crate) fn extended_symbols(source_symbols: u32) -> (extended: u32)
    requires
        source_symbols <= MAX_SOURCE_SYMBOLS_PER_BLOCK,
    ensures
        extended == extended_block_symbols(source_symbols),
        source_symbols <= extended <= MAX_SOURCE_SYMBOLS_PER_BLOCK,
{
    raptorq::extended_source_block_symbols(source_symbols)
}

/// Sender-side encoder of one payload.
#[derive(Debug)]
pub struct RaptorQEncoder {
    engine: raptorq::Encoder,
    params: RaptorQFecType,
    source_packets: Vec<SymbolPacket>,
    repair_offsets: Vec<u32>,
    encoder_index: usize,
}

impl RaptorQEncoder {
    /// The source blocks of the payload.
    pub closed spec fn blocks(&self) -> Seq<Seq<Seq<u8>>> {
        engine_source_symbols(self.engine)
    }

    /// The source packets not yet handed out. The next one to leave is the last.
    pub closed spec fn pending(&self) -> Seq<(u32, Seq<u8>)> {
        packet_views(self.source_packets@)
    }

    /// The block that the next repair packet is taken from.
    pub closed spec fn next_block(&self) -> int {
        self.encoder_index as int
    }

    /// The repair symbol of this payload for `block` and `repair_symbol_id`.
    pub closed spec fn repair_symbol(&self, block: int, repair_symbol_id: u32) -> Seq<u8> {
        engine_repair_symbol(self.engine, block, repair_symbol_id)
    }

    /// The transfer parameters, as a specification value.
    pub closed spec fn spec_params(&self) -> RaptorQFecType {
        self.params
    }

    /// What holds of every encoder: there is a block to take repair packets
    /// from, the pending packets are an initial part of the source queue, and
    /// every symbol is a full transmission unit.
    #[verifier::type_invariant]
    pub closed spec fn inv(&self) -> bool {
        &&& self.blocks().len() > 0
        &&& engine_symbol_size(self.engine) == MAX_TRANSMISSION_UNIT
        &&& forall|i: int|
            0 <= i < self.source_packets@.len() ==> (#[trigger] self.source_packets@[i]).data@.len()
                == MAX_TRANSMISSION_UNIT
        &&& 0 <= self.encoder_index < self.blocks().len()
        &&& self.repair_offsets@.len() == self.blocks().len()
        &&& forall|b: int|
            0 <= b < self.blocks().len() ==> {
                &&& (#[trigger] self.blocks()[b]).len() <= MAX_SOURCE_SYMBOLS_PER_BLOCK
                &&& self.repair_offsets@[b] == extended_block_symbols(self.blocks()[b].len() as u32)
                &&& self.repair_offsets@[b] <= MAX_SOURCE_SYMBOLS_PER_BLOCK
            }
        &&& self.pending().len() <= source_queue(self.blocks()).len()
        &&& self.pending() == source_queue(self.blocks()).take(self.pending().len() as int)
    }

    /// Prepares `data` for sending.
    ///
    /// The payload must not be empty and its size must fit the 32-bit size
    /// field of the transfer parameters.
    pub fn with_data(data: &[u8]) -> (encoder: Self)
        requires
            0 < data@.len() <= u32::MAX,
        ensures
            is_encoder_of(encoder, data@),
    {
        let engine = engine_with_defaults(data, MAX_TRANSMISSION_UNIT as u16);
        let block_count = engine_block_count(&engine);
        let ghost blocks = engine_source_symbols(engine);
        let mut source_packets: Vec<SymbolPacket> = Vec::new();
        let mut repair_offsets: Vec<u32> = Vec::new();
        let mut block: usize = 0;
        while block < block_count
            invariant
                blocks == engine_source_symbols(engine),
                block_count == blocks.len(),
                0 <= block <= block_count,
                repair_offsets@.len() == block,
                packet_views(source_packets@) == source_queue(blocks.take(block as int)),
                forall|b: int, k: int|
                    0 <= b < blocks.len() && 0 <= k < blocks[b].len() ==> (
                    #[trigger] blocks[b][k]).len() == MAX_TRANSMISSION_UNIT,
                forall|i: int|
                    0 <= i < source_packets@.len() ==> (#[trigger] source_packets@[i]).data@.len()
                        == MAX_TRANSMISSION_UNIT,
                forall|b: int|
                    0 <= b < blocks.len() ==> (#[trigger] blocks[b]).len()
                        <= MAX_SOURCE_SYMBOLS_PER_BLOCK,
                forall|b: int|
                    0 <= b < block ==> {
                        &&& #[trigger] repair_offsets@[b] == extended_block_symbols(
                            blocks[b].len() as u32,
                        )
                        &&& repair_offsets@[b] <= MAX_SOURCE_SYMBOLS_PER_BLOCK
                    },
            decreases block_count - block,
        {
            let mut packets = engine_source_packets(&engine, block);
            let ghost taken = source_packets@;
            let ghost block_views = packet_views(packets@);
            assert(block_views.len() == blocks[block as int].len());
            assert(packets@.len() == block_views.len());
            assert forall|k: int| 0 <= k < packets@.len() implies (#[trigger] packets@[k]).data@.len()
                == MAX_TRANSMISSION_UNIT by {
                assert(block_views[k] == packets@[k]@);
                assert(blocks[block as int][k].len() == MAX_TRANSMISSION_UNIT);
            }
            repair_offsets.push(extended_symbols(packets.len() as u32));
            while packets.len() > 0
                invariant
                    packets@.len() <= block_views.len(),
                    forall|k: int|
                        0 <= k < packets@.len() ==> (#[trigger] packets@[k]).data@.len()
                            == MAX_TRANSMISSION_UNIT,
                    forall|i: int|
                        0 <= i < source_packets@.len() ==> (
                        #[trigger] source_packets@[i]).data@.len() == MAX_TRANSMISSION_UNIT,
                    packet_views(packets@) == block_views.take(packets@.len() as int),
                    packet_views(source_packets@) == packet_views(taken)
                        + block_views.reverse().take(block_views.len() - packets@.len()),
                decreases packets@.len(),
            {
                let ghost before = packets@;
                let ghost queued = source_packets@;
                let packet = packets.pop().unwrap();
                source_packets.push(packet);
                assert(packet_views(packets@) == block_views.take(packets@.len() as int)) by {
                    assert(packet_views(before) == block_views.take(before.len() as int));
                    assert forall|i: int| 0 <= i < packets@.len() implies packet_views(
                        packets@,
                    )[i] == block_views[i] by {
                        assert(packet_views(before)[i] == block_views[i]);
                    }
                }
                assert(packet_views(source_packets@) == packet_views(taken)
                    + block_views.reverse().take(block_views.len() - packets@.len())) by {
                    let k = block_views.len() - before.len();
                    assert(packet@ == packet_views(before)[before.len() - 1]);
                    assert(packet@ == block_views[before.len() - 1]);
                    assert(block_views.reverse()[k] == block_views[before.len() - 1]);
                    assert(packet_views(source_packets@) =~= packet_views(queued).push(packet@));
                    assert(block_views.reverse().take(k + 1) =~= block_views.reverse().take(
                        k,
                    ).push(packet@));
                }
            }
            proof {
                assert(block_views.reverse().take(block_views.len() as int)
                    =~= block_views.reverse());
                assert(blocks.take(block as int + 1).drop_last() =~= blocks.take(block as int));
                assert(blocks.take(block as int + 1).last() == blocks[block as int]);
            }
            block += 1;
        }
        proof {
            assert(blocks.take(block as int) =~= blocks);
            lemma_source_queue_len(blocks);
            assert(source_queue(blocks).take(source_queue(blocks).len() as int) =~= source_queue(
                blocks,
            ));
        }
        let symbols_count = source_packets.len() as u32;
        RaptorQEncoder {
            engine,
            params: RaptorQFecType {
                data_size: data.len() as u32,
                symbol_size: MAX_TRANSMISSION_UNIT,
                symbols_count,
            },
            source_packets,
            repair_offsets,
            encoder_index: 0,
        }
    }

    /// Produces the next packet of the transfer.
    ///
    /// While source packets are pending, the last of them leaves the queue and
    /// `seqno` is set to its encoding symbol id. After that the packet is the
    /// repair symbol of the block in turn for the caller's `seqno`, which
    /// stays as it is; the turn then passes to the next block. A repair
    /// symbol whose encoding symbol id cannot be used is refused and nothing
    /// changes. Every packet is a full transmission unit.
    pub fn encode(&mut self, seqno: &mut u32) -> (packet: Result<Vec<u8>, EncoderError>)
        ensures
            encode_step(*old(self), *old(seqno), *final(self), *final(seqno), packet_content(packet)),
    {
        proof {
            use_type_invariant(&*self);
        }
        let ghost queue = source_queue(self.blocks());
        let ghost pending = self.pending();
        let mut packets: Vec<SymbolPacket> = Vec::new();
        proof {
            assert(packet_views(packets@) =~= queue.take(0));
        }
        core::mem::swap(&mut self.source_packets, &mut packets);
        let ghost all = packets@;
        let next = packets.pop();
        proof {
            let rest = packet_views(packets@);
            if pending.len() > 0 {
                assert(next.unwrap()@ == pending.last());
                assert(next.unwrap() == all[all.len() - 1]);
                assert(rest =~= pending.drop_last());
            }
            assert(rest =~= queue.take(rest.len() as int));
            assert forall|i: int| 0 <= i < packets@.len() implies (#[trigger] packets@[i]).data@.len()
                == MAX_TRANSMISSION_UNIT by {
                assert(packets@[i] == all[i]);
            }
        }
        core::mem::swap(&mut self.source_packets, &mut packets);
        match next {
            Some(packet) => {
                *seqno = packet.encoding_symbol_id;
                Ok(packet.data)
            },
            None => {
                assert(pending.len() == 0);
                let block = self.encoder_index;
                let offset = self.repair_offsets[block];
                assert(self.blocks()[block as int].len() <= MAX_SOURCE_SYMBOLS_PER_BLOCK);
                if *seqno > MAX_ENCODING_SYMBOL_ID - offset || !check_symbol_id(
                    offset,
                    *seqno + offset,
                ) {
                    return Err(EncoderError::FailedToEncode);
                }
                match engine_repair_packet(&self.engine, block, *seqno) {
                    Some(packet) => {
                        let count = self.repair_offsets.len();
                        self.encoder_index = (block + 1) % count;
                        Ok(packet.data)
                    },
                    None => Err(EncoderError::FailedToEncode),
                }
            },
        }
    }

    /// The transfer parameters.
    pub fn params(&self) -> (params: &RaptorQFecType)
        ensures
            *params == self.spec_params(),
    {
        &self.params
    }
}

/// Whether `encoder` is the encoder as it is first made for the payload
/// `data`: the payload is cut into the blocks that RaptorQ's default
/// parameters give, every source packet is pending, as many as the
/// parameters announce, and the first block is the first to give a repair
/// packet.
pub open spec fn is_encoder_of(encoder: RaptorQEncoder, data: Seq<u8>) -> bool {
    &&& encoder.blocks() == raptorq_source_blocks(data, MAX_TRANSMISSION_UNIT as u16)
    &&& encoder.pending() == source_queue(encoder.blocks())
    &&& encoder.pending().len() == symbols_needed(
        data.len() as int,
        MAX_TRANSMISSION_UNIT as int,
    )
    &&& encoder.pending().len() == encoder.spec_params().symbols_count
    &&& encoder.next_block() == 0
    &&& encoder.spec_params() == (RaptorQFecType {
        data_size: data.len() as u32,
        symbol_size: MAX_TRANSMISSION_UNIT,
        symbols_count: symbols_needed(data.len() as int, MAX_TRANSMISSION_UNIT as int) as u32,
    })
}

/// The bytes of a packet that was produced, or the reason why none was.
pub open spec fn packet_content(packet: Result<Vec<u8>, EncoderError>) -> Result<
    Seq<u8>,
    EncoderError,
> {
    match packet {
        Ok(data) => Ok(data@),
        Err(error) => Err(error),
    }
}

/// What `encode` makes of an encoder and of the caller's sequence number,
/// and what it hands out.
pub open spec fn encode_step(
    pre: RaptorQEncoder,
    seqno: u32,
    post: RaptorQEncoder,
    seqno_after: u32,
    packet: Result<Seq<u8>, EncoderError>,
) -> bool {
    &&& post.blocks() == pre.blocks()
    &&& post.spec_params() == pre.spec_params()
    &&& forall|block: int, id: u32| post.repair_symbol(block, id) == pre.repair_symbol(block, id)
    &&& packet matches Ok(data) ==> data.len() == MAX_TRANSMISSION_UNIT
    &&& if pre.pending().len() > 0 {
        &&& packet == Ok::<Seq<u8>, EncoderError>(pre.pending().last().1)
        &&& seqno_after == pre.pending().last().0
        &&& post.pending() == pre.pending().drop_last()
        &&& post.next_block() == pre.next_block()
    } else if repair_id_usable(pre.blocks(), pre.next_block(), seqno) {
        &&& packet == Ok::<Seq<u8>, EncoderError>(pre.repair_symbol(pre.next_block(), seqno))
        &&& seqno_after == seqno
        &&& post.pending() == pre.pending()
        &&& post.next_block() == (pre.next_block() + 1) % pre.blocks().len() as int
    } else {
        &&& packet == Err::<Seq<u8>, EncoderError>(EncoderError::FailedToEncode)
        &&& seqno_after == seqno
        &&& post.pending() == pre.pending()
        &&& post.next_block() == pre.next_block()
    }
}

/// Encoding symbol id of the repair symbol that `block` yields for the repair
/// id `seqno`: the repair ids follow the block's extended size.
pub open spec fn encode_repair_id(blocks: Seq<Seq<Seq<u8>>>, block: int, seqno: u32) -> int {
    seqno + extended_block_symbols(blocks[block].len() as u32)
}

/// Whether `block` can yield the repair symbol for the repair id `seqno`.
pub open spec fn repair_id_usable(blocks: Seq<Seq<Seq<u8>>>, block: int, seqno: u32) -> bool {
    symbol_id_usable(
        extended_block_symbols(blocks[block].len() as u32),
        encode_repair_id(blocks, block, seqno),
    )
}

/// The symbols needed for a payload have room for it, and one symbol less
/// would not.
pub proof fn lemma_symbols_cover_payload(data_size: int, symbol_size: int)
    requires
        data_size > 0,
        symbol_size > 0,
    ensures
        data_size <= symbols_needed(data_size, symbol_size) * symbol_size,
        (symbols_needed(data_size, symbol_size) - 1) * symbol_size < data_size,
{
    let n = symbols_needed(data_size, symbol_size);
    assert(n == (data_size + symbol_size - 1) / symbol_size);
    assert((data_size + symbol_size - 1) == symbol_size * n + (data_size + symbol_size - 1)
        % symbol_size) by (nonlinear_arith)
        requires
            symbol_size > 0,
            n == (data_size + symbol_size - 1) / symbol_size,
    ;
    assert(0 <= (data_size + symbol_size - 1) % symbol_size < symbol_size) by (nonlinear_arith)
        requires
            symbol_size > 0,
    ;
    assert(symbol_size * n == n * symbol_size) by (nonlinear_arith);
    assert((n - 1) * symbol_size == n * symbol_size - symbol_size) by (nonlinear_arith);
}

/// The source queue holds every source symbol exactly once.
pub proof fn lemma_source_queue_len(blocks: Seq<Seq<Seq<u8>>>)
    ensures
        source_queue(blocks).len() == symbol_count(blocks),
    decreases blocks.len(),
{
    if blocks.len() > 0 {
        lemma_source_queue_len(blocks.drop_last());
    }
}

} // verus!
