//! Transfers of one payload each: the sender hands out parts until the
//! receiver has confirmed the payload or the deadline has passed; the
//! receiver collects parts until the payload is rebuilt or the deadline has
//! passed.
use vstd::prelude::*;
use crate::overlay_node::lru::{touched, LruSet};
use crate::rldp_node::decoder::{
    decoder_answer, decoder_data_size, decoder_decode, decoder_new, decoder_symbols, seqno_usable,
    symbol_id, symbol_id_of, MAX_FEC_DATA_SIZE,
};
use crate::rldp_node::encoder::{
    encode_step, is_encoder_of, symbols_needed, EncoderError, RaptorQEncoder, RaptorQFecType,
    MAX_TRANSMISSION_UNIT,
};
use crate::utils::node_id::bytes32_eq;

verus! {

/// One part of a payload on its way.
#[derive(Debug)]
pub struct MessagePart {
    pub transfer_id: [u8; 32],
    pub fec_type: RaptorQFecType,
    pub part: u32,
    pub total_size: u64,
    pub seqno: u32,
    pub data: Vec<u8>,
}

/// Why a transfer ended without its payload.
#[derive(Clone, Copy, Debug, PartialEq, Eq, Structural)]
pub enum RldpError {
    /// The encoder has no further symbol to give.
    FailedToEncode,
    /// The deadline passed before the payload was through.
    TransferTimedOut,
    /// The parameters announced are not those of a payload that is taken.
    ParametersRejected,
    /// A part does not belong to the payload that its transfer collects.
    DecodeFailed,
}

/// How far the sender of a payload has come.
#[derive(Clone, Copy, Debug, PartialEq, Eq, Structural)]
pub enum SenderState {
    /// Parts are being sent.
    Sending,
    /// The receiver has confirmed the payload.
    Confirmed,
    /// The deadline passed without confirmation.
    TimedOut,
}

/// What the sender does next.
#[derive(Debug)]
pub enum SenderStep {
    /// Send this part.
    Send(MessagePart),
    /// Nothing is left to do: the payload is confirmed.
    Finished,
}

/// The sending side of one transfer.
#[derive(Debug)]
pub struct OutgoingTransfer {
    transfer_id: [u8; 32],
    encoder: RaptorQEncoder,
    total_size: u32,
    sent: u32,
    deadline: u64,
    state: SenderState,
}

impl OutgoingTransfer {
    /// The id of the transfer.
    pub closed spec fn spec_id(&self) -> Seq<u8> {
        self.transfer_id@
    }

    /// How far the transfer has come.
    pub closed spec fn spec_state(&self) -> SenderState {
        self.state
    }

    /// Until when the transfer is pursued.
    pub closed spec fn spec_deadline(&self) -> u64 {
        self.deadline
    }

    /// Number of parts handed out.
    pub closed spec fn spec_sent(&self) -> u32 {
        self.sent
    }

    /// The encoder of the payload.
    pub closed spec fn spec_encoder(&self) -> RaptorQEncoder {
        self.encoder
    }

    /// The count of parts handed out keeps step with the encoder: while
    /// source packets are pending, the parts handed out and the packets
    /// pending are all the source packets; after that at least as many parts
    /// have been handed out as there are source packets. So a repair packet
    /// is never asked for with the number of a source packet.
    pub open spec fn wf(&self) -> bool {
        let pending = self.spec_encoder().pending().len();
        let count = self.spec_encoder().spec_params().symbols_count;
        if pending > 0 {
            self.spec_sent() + pending == count
        } else {
            self.spec_sent() >= count
        }
    }

    /// Starts the transfer of `data` under the id `transfer_id`, to be
    /// through by `deadline`. The payload must not be empty and its size
    /// must fit 32 bits.
    pub fn new(transfer_id: [u8; 32], data: &[u8], deadline: u64) -> (transfer: Self)
        requires
            0 < data@.len() <= u32::MAX,
        ensures
            transfer.wf(),
            transfer.spec_id() == transfer_id@,
            transfer.spec_state() == SenderState::Sending,
            transfer.spec_deadline() == deadline,
            transfer.spec_sent() == 0,
            is_encoder_of(transfer.spec_encoder(), data@),
    {
        let encoder = RaptorQEncoder::with_data(data);
        OutgoingTransfer {
            transfer_id,
            encoder,
            total_size: data.len() as u32,
            sent: 0,
            deadline,
            state: SenderState::Sending,
        }
    }

    /// The id of the transfer.
    pub fn id(&self) -> (id: &[u8; 32])
        ensures
            id@ == self.spec_id(),
    {
        &self.transfer_id
    }

    /// How far the transfer has come.
    pub fn state(&self) -> (state: SenderState)
        ensures
            state == self.spec_state(),
    {
        self.state
    }

    /// Decides what to do at the time `now`.
    ///
    /// A confirmed transfer is finished. A transfer whose deadline has
    /// passed, now or earlier, has timed out. Otherwise the next part is to
    /// be sent. It carries the next packet of the encoder: a source packet
    /// under its encoding symbol id or, once all source packets are out, the
    /// repair packet asked for with the number of parts handed out so far,
    /// under that number.
    pub fn next_step(&mut self, now: u64) -> (step: Result<SenderStep, RldpError>)
        requires
            old(self).wf(),
        ensures
            final(self).wf(),
            final(self).spec_id() == old(self).spec_id(),
            final(self).spec_deadline() == old(self).spec_deadline(),
            match old(self).spec_state() {
                SenderState::Confirmed => {
                    &&& step matches Ok(SenderStep::Finished)
                    &&& *final(self) == *old(self)
                },
                SenderState::TimedOut => {
                    &&& step matches Err(error)
                    &&& error == RldpError::TransferTimedOut
                    &&& *final(self) == *old(self)
                },
                SenderState::Sending => if now > old(self).spec_deadline() {
                    &&& step matches Err(error)
                    &&& error == RldpError::TransferTimedOut
                    &&& final(self).spec_state() == SenderState::TimedOut
                    &&& final(self).spec_sent() == old(self).spec_sent()
                    &&& final(self).spec_encoder() == old(self).spec_encoder()
                } else {
                    &&& final(self).spec_state() == SenderState::Sending
                    &&& match step {
                        Ok(SenderStep::Send(part)) => {
                            &&& part.transfer_id@ == old(self).spec_id()
                            &&& part.fec_type == old(self).spec_encoder().spec_params()
                            &&& part.part == 0
                            &&& part.total_size == old(self).spec_encoder().spec_params().data_size
                            &&& encode_step(
                                old(self).spec_encoder(),
                                old(self).spec_sent(),
                                final(self).spec_encoder(),
                                part.seqno,
                                Ok(part.data@),
                            )
                            &&& old(self).spec_encoder().pending().len() == 0 ==> part.seqno
                                == old(self).spec_sent() && part.seqno
                                >= part.fec_type.symbols_count
                            &&& final(self).spec_sent() == if old(self).spec_sent() == u32::MAX {
                                u32::MAX
                            } else {
                                (old(self).spec_sent() + 1) as u32
                            }
                        },
                        Ok(SenderStep::Finished) => false,
                        Err(error) => {
                            &&& error == RldpError::FailedToEncode
                            &&& final(self).spec_sent() == old(self).spec_sent()
                            &&& encode_step(
                                old(self).spec_encoder(),
                                old(self).spec_sent(),
                                final(self).spec_encoder(),
                                old(self).spec_sent(),
                                Err(EncoderError::FailedToEncode),
                            )
                        },
                    }
                },
            },
    {
        match self.state {
            SenderState::Confirmed => return Ok(SenderStep::Finished),
            SenderState::TimedOut => return Err(RldpError::TransferTimedOut),
            SenderState::Sending => {},
        }
        if now > self.deadline {
            self.state = SenderState::TimedOut;
            return Err(RldpError::TransferTimedOut);
        }
        let mut seqno = self.sent;
        let fec_type = *self.encoder.params();
        match self.encoder.encode(&mut seqno) {
            Ok(data) => {
                if self.sent < u32::MAX {
                    self.sent = self.sent + 1;
                }
                Ok(
                    SenderStep::Send(
                        MessagePart {
                            transfer_id: self.transfer_id,
                            fec_type,
                            part: 0,
                            total_size: fec_type.data_size as u64,
                            seqno,
                            data,
                        },
                    ),
                )
            },
            Err(_) => Err(RldpError::FailedToEncode),
        }
    }

    /// Takes the receiver's word that the transfer `transfer_id` is through.
    /// Returns whether this transfer is meant; if so, and if it was still
    /// sending, it is confirmed.
    pub fn on_complete(&mut self, transfer_id: &[u8; 32]) -> (meant: bool)
        ensures
            final(self).wf() == old(self).wf(),
            meant == (transfer_id@ == old(self).spec_id()),
            final(self).spec_id() == old(self).spec_id(),
            final(self).spec_deadline() == old(self).spec_deadline(),
            final(self).spec_sent() == old(self).spec_sent(),
            final(self).spec_encoder() == old(self).spec_encoder(),
            final(self).spec_state() == if meant && old(self).spec_state() == SenderState::Sending {
                SenderState::Confirmed
            } else {
                old(self).spec_state()
            },
    {
        if !bytes32_eq(transfer_id, &self.transfer_id) {
            return false;
        }
        if let SenderState::Sending = self.state {
            self.state = SenderState::Confirmed;
        }
        true
    }
}

/// What the receiver expects of the payloads it takes.
#[derive(Clone, Copy, Debug, PartialEq, Eq, Structural)]
pub struct RldpOptions {
    /// Largest payload that is taken.
    pub max_answer_size: u32,
    /// How many payloads are collected at a time.
    pub max_transfers: usize,
    /// How long, in seconds, a payload is collected.
    pub transfer_timeout: u64,
    /// How many finished transfers are remembered to drop late parts.
    pub completed_log_size: usize,
}

/// One payload in collection.
#[derive(Debug)]
pub struct IncomingTransfer {
    pub transfer_id: [u8; 32],
    pub fec_type: RaptorQFecType,
    pub deadline: u64,
    pub received: u32,
    pub decoder: raptorq::Decoder,
}

/// What an incoming transfer is: its parameters, its progress, and the
/// symbols that its decoder has been handed.
pub struct IncomingView {
    pub transfer_id: Seq<u8>,
    pub fec_type: RaptorQFecType,
    pub deadline: u64,
    pub received: u32,
    pub symbols: Seq<(u32, Seq<u8>)>,
}

impl View for IncomingTransfer {
    type V = IncomingView;

    open spec fn view(&self) -> IncomingView {
        IncomingView {
            transfer_id: self.transfer_id@,
            fec_type: self.fec_type,
            deadline: self.deadline,
            received: self.received,
            symbols: decoder_symbols(self.decoder),
        }
    }
}

impl IncomingTransfer {
    /// The decoder is one for the payload size announced.
    pub open spec fn wf(&self) -> bool {
        &&& 0 < self.fec_type.data_size <= MAX_FEC_DATA_SIZE
        &&& decoder_data_size(self.decoder) == self.fec_type.data_size
    }
}

/// The views of a run of incoming transfers.
pub open spec fn incoming_views(transfers: Seq<IncomingTransfer>) -> Seq<IncomingView> {
    Seq::new(transfers.len(), |i: int| transfers[i]@)
}

/// Whether `transfers` holds the transfer `id`.
pub open spec fn is_incoming(transfers: Seq<IncomingView>, id: Seq<u8>) -> bool {
    exists|i: int| 0 <= i < transfers.len() && (#[trigger] transfers[i]).transfer_id == id
}

/// Where the transfer `id` stands.
pub open spec fn incoming_position(transfers: Seq<IncomingView>, id: Seq<u8>) -> int {
    choose|i: int| 0 <= i < transfers.len() && (#[trigger] transfers[i]).transfer_id == id
}

/// No id names two transfers.
pub open spec fn incoming_unique(transfers: Seq<IncomingView>) -> bool {
    forall|i: int, j: int|
        0 <= i < j < transfers.len() ==> (#[trigger] transfers[i]).transfer_id != (
        #[trigger] transfers[j]).transfer_id
}

/// Whether a part is one that a transfer can take: it announces a payload of
/// at most `max_size` bytes cut into full-size symbols of a single block, and
/// carries a full symbol whose number stands for an encoding symbol id that
/// the decoder can take.
pub open spec fn part_acceptable(part: MessagePart, max_size: u32) -> bool {
    &&& part.part == 0
    &&& 0 < part.fec_type.data_size <= max_size
    &&& part.fec_type.data_size <= MAX_FEC_DATA_SIZE
    &&& part.total_size == part.fec_type.data_size
    &&& part.fec_type.symbol_size == MAX_TRANSMISSION_UNIT
    &&& part.fec_type.symbols_count == symbols_needed(
        part.fec_type.data_size as int,
        MAX_TRANSMISSION_UNIT as int,
    )
    &&& seqno_usable(part.seqno, part.fec_type.symbols_count)
    &&& part.data@.len() == MAX_TRANSMISSION_UNIT
}

/// Decides whether a part is one that a transfer can take, and if so works
/// out the encoding symbol id of its symbol.
pub fn check_part(part: &MessagePart, max_size: u32) -> (id: Option<u32>)
    ensures
        part_acceptable(*part, max_size) ==> id == Some(
            symbol_id_of(part.seqno, part.fec_type.symbols_count) as u32,
        ),
        !part_acceptable(*part, max_size) ==> id.is_none(),
{
    let size = part.fec_type.data_size;
    if part.part != 0 || size == 0 || size > max_size || size > MAX_FEC_DATA_SIZE {
        return None;
    }
    let needed = (size - 1) / MAX_TRANSMISSION_UNIT + 1;
    assert(needed == symbols_needed(size as int, MAX_TRANSMISSION_UNIT as int));
    if part.total_size != size as u64 || part.fec_type.symbol_size != MAX_TRANSMISSION_UNIT
        || part.fec_type.symbols_count != needed || part.data.len()
        != MAX_TRANSMISSION_UNIT as usize {
        return None;
    }
    symbol_id(part.seqno, needed)
}

/// What became of a part that came in.
#[derive(Debug)]
pub enum PartOutcome {
    /// The part belongs to a transfer that is over, or is one too many, and
    /// was dropped without a word.
    Dropped,
    /// The part was refused or ended its transfer; the sender is to be told.
    Failed(RldpError),
    /// The part was taken; the sender is to be told so.
    Confirm { received: u32 },
    /// The part completed the payload; the sender is to be told so and the
    /// payload goes to the subscriber.
    Complete { payload: Vec<u8> },
}

/// The receiving side of all transfers of one node.
#[derive(Debug)]
pub struct RldpReceiver {
    options: RldpOptions,
    transfers: Vec<IncomingTransfer>,
    completed: LruSet,
}

impl RldpReceiver {
    /// What the receiver expects.
    pub closed spec fn spec_options(&self) -> RldpOptions {
        self.options
    }

    /// The payloads in collection, in the order of their first parts.
    pub closed spec fn transfers(&self) -> Seq<IncomingView> {
        incoming_views(self.transfers@)
    }

    /// The ids of the transfers that ended lately, the last one at the end.
    pub closed spec fn completed(&self) -> Seq<Seq<u8>> {
        self.completed.items()
    }

    /// No id names two transfers, every transfer has its decoder, and the
    /// remembered ids keep their bound.
    pub closed spec fn wf(&self) -> bool {
        &&& incoming_unique(self.transfers())
        &&& forall|i: int| 0 <= i < self.transfers@.len() ==> (#[trigger] self.transfers@[i]).wf()
        &&& self.completed.wf()
        &&& self.completed.capacity() == self.options.completed_log_size
    }

    /// A receiver without transfers.
    pub fn new(options: RldpOptions) -> (receiver: Self)
        ensures
            receiver.wf(),
            receiver.spec_options() == options,
            receiver.transfers() == Seq::<IncomingView>::empty(),
            receiver.completed() == Seq::<Seq<u8>>::empty(),
    {
        let receiver = RldpReceiver {
            options,
            transfers: Vec::new(),
            completed: LruSet::new(options.completed_log_size),
        };
        assert(receiver.transfers() =~= Seq::<IncomingView>::empty());
        receiver
    }

    /// Number of payloads in collection.
    pub fn transfer_count(&self) -> (count: usize)
        ensures
            count == self.transfers().len(),
    {
        self.transfers.len()
    }

    fn position(&self, id: &[u8; 32]) -> (found: Option<usize>)
        requires
            self.wf(),
        ensures
            found matches Some(i) ==> {
                &&& i < self.transfers().len()
                &&& self.transfers()[i as int].transfer_id == id@
                &&& is_incoming(self.transfers(), id@)
                &&& incoming_position(self.transfers(), id@) == i
            },
            found is None ==> !is_incoming(self.transfers(), id@),
    {
        let mut i: usize = 0;
        while i < self.transfers.len()
            invariant
                self.wf(),
                i <= self.transfers@.len(),
                forall|k: int| 0 <= k < i ==> (#[trigger] self.transfers()[k]).transfer_id != id@,
            decreases self.transfers@.len() - i,
        {
            if bytes32_eq(&self.transfers[i].transfer_id, id) {
                proof {
                    assert(self.transfers()[i as int].transfer_id == id@);
                    let j = incoming_position(self.transfers(), id@);
                    if j < i {
                        assert(self.transfers()[j].transfer_id != self.transfers()[i as int].transfer_id);
                    } else if i < j {
                        assert(self.transfers()[i as int].transfer_id != self.transfers()[j].transfer_id);
                    }
                }
                return Some(i);
            }
            i += 1;
        }
        None
    }

    /// Takes a part that came in at the time `now`.
    ///
    /// A part of a transfer that ended lately is dropped, and so is the
    /// first part of a transfer when as many as allowed are in collection.
    /// A part whose parameters are not taken is refused. The first part of a
    /// transfer starts its collection. A part that comes after the deadline
    /// of its transfer, or that announces other parameters than the first
    /// part did, ends the transfer. Any other part goes to the decoder:
    /// either the payload is rebuilt, which ends the transfer, or the part
    /// is confirmed.
    pub fn receive_part(&mut self, part: &MessagePart, now: u64) -> (outcome: PartOutcome)
        requires
            old(self).wf(),
        ensures
            final(self).wf(),
            final(self).spec_options() == old(self).spec_options(),
            part_received(
                old(self).transfers(),
                old(self).completed(),
                old(self).spec_options(),
                *part,
                now,
                final(self).transfers(),
                final(self).completed(),
                outcome,
            ),
    {
        if self.completed.contains(&part.transfer_id) {
            return PartOutcome::Dropped;
        }
        let id = match check_part(part, self.options.max_answer_size) {
            Some(id) => id,
            None => return PartOutcome::Failed(RldpError::ParametersRejected),
        };
        let ghost before = self.transfers();
        let ghost raw_before = self.transfers@;
        let slot = match self.position(&part.transfer_id) {
            Some(slot) => slot,
            None => {
                if self.transfers.len() >= self.options.max_transfers {
                    return PartOutcome::Dropped;
                }
                let decoder = decoder_new(part.fec_type.data_size, MAX_TRANSMISSION_UNIT as u16);
                let timeout = self.options.transfer_timeout;
                let deadline = if now > u64::MAX - timeout {
                    u64::MAX
                } else {
                    now + timeout
                };
                self.transfers.push(
                    IncomingTransfer {
                        transfer_id: part.transfer_id,
                        fec_type: part.fec_type,
                        deadline,
                        received: 0,
                        decoder,
                    },
                );
                proof {
                    assert(self.transfers() =~= before.push(
                        IncomingView {
                            transfer_id: part.transfer_id@,
                            fec_type: part.fec_type,
                            deadline,
                            received: 0,
                            symbols: Seq::empty(),
                        },
                    ));
                    assert forall|i: int, j: int|
                        0 <= i < j < self.transfers().len() implies (
                    #[trigger] self.transfers()[i]).transfer_id != (
                    #[trigger] self.transfers()[j]).transfer_id by {
                        if j < before.len() {
                            assert(before[i].transfer_id != before[j].transfer_id);
                        } else {
                            assert(before[i].transfer_id != part.transfer_id@);
                        }
                    }
                    assert forall|i: int| 0 <= i < self.transfers@.len() implies (
                    #[trigger] self.transfers@[i]).wf() by {
                        if i < raw_before.len() {
                            assert(raw_before[i].wf());
                        }
                    }
                }
                self.transfers.len() - 1
            },
        };
        let ghost started = self.transfers();
        let ghost raw = self.transfers@;
        assert(raw[slot as int].wf());
        let expected = self.transfers[slot].fec_type;
        let mismatch = expected.data_size != part.fec_type.data_size || expected.symbol_size
            != part.fec_type.symbol_size || expected.symbols_count != part.fec_type.symbols_count;
        if now > self.transfers[slot].deadline || mismatch {
            self.transfers.remove(slot);
            self.completed.touch(part.transfer_id);
            proof {
                lemma_incoming_removed(started, raw, self.transfers@, slot as int);
            }
            return PartOutcome::Failed(
                if mismatch {
                    RldpError::DecodeFailed
                } else {
                    RldpError::TransferTimedOut
                },
            );
        }
        let ghost symbols = started[slot as int].symbols.push((id, part.data@));
        let payload = decoder_decode(&mut self.transfers[slot].decoder, 0, id, part.data.clone());
        let ghost fed_views = self.transfers();
        proof {
            assert(fed_views =~= started.update(
                slot as int,
                IncomingView { symbols, ..started[slot as int] },
            ));
            assert forall|i: int, j: int| 0 <= i < j < fed_views.len() implies (
            #[trigger] fed_views[i]).transfer_id != (#[trigger] fed_views[j]).transfer_id by {
                assert(started[i].transfer_id != started[j].transfer_id);
            }
            assert forall|i: int| 0 <= i < self.transfers@.len() implies (
            #[trigger] self.transfers@[i]).wf() by {
                if i != slot {
                    assert(raw[i].wf());
                }
            }
        }
        match payload {
            Some(payload) => {
                let ghost fed = self.transfers@;
                self.transfers.remove(slot);
                self.completed.touch(part.transfer_id);
                proof {
                    lemma_incoming_removed(fed_views, fed, self.transfers@, slot as int);
                    assert(fed_views.remove(slot as int) =~= started.remove(slot as int));
                }
                PartOutcome::Complete { payload }
            },
            None => {
                let received = self.transfers[slot].received;
                let received = if received < u32::MAX {
                    received + 1
                } else {
                    received
                };
                let ghost fed = self.transfers@;
                self.transfers[slot].received = received;
                proof {
                    assert(self.transfers() =~= started.update(
                        slot as int,
                        IncomingView { received, symbols, ..started[slot as int] },
                    ));
                    assert forall|i: int, j: int|
                        0 <= i < j < self.transfers().len() implies (
                    #[trigger] self.transfers()[i]).transfer_id != (
                    #[trigger] self.transfers()[j]).transfer_id by {
                        assert(started[i].transfer_id != started[j].transfer_id);
                    }
                    assert forall|i: int| 0 <= i < self.transfers@.len() implies (
                    #[trigger] self.transfers@[i]).wf() by {
                        if i != slot {
                            assert(fed[i].wf());
                        }
                    }
                }
                PartOutcome::Confirm { received }
            },
        }
    }
}

/// Taking one transfer out keeps the others, each with its own id and its
/// decoder.
pub proof fn lemma_incoming_removed(
    views: Seq<IncomingView>,
    before: Seq<IncomingTransfer>,
    after: Seq<IncomingTransfer>,
    place: int,
)
    requires
        views == incoming_views(before),
        incoming_unique(views),
        forall|i: int| 0 <= i < before.len() ==> (#[trigger] before[i]).wf(),
        0 <= place < before.len(),
        after == before.remove(place),
    ensures
        incoming_views(after) == views.remove(place),
        incoming_unique(incoming_views(after)),
        forall|i: int| 0 <= i < after.len() ==> (#[trigger] after[i]).wf(),
        !is_incoming(incoming_views(after), views[place].transfer_id),
{
    let left = incoming_views(after);
    assert(left =~= views.remove(place));
    assert forall|i: int, j: int| 0 <= i < j < left.len() implies (#[trigger] left[i]).transfer_id
        != (#[trigger] left[j]).transfer_id by {
        let i0 = if i < place {
            i
        } else {
            i + 1
        };
        let j0 = if j < place {
            j
        } else {
            j + 1
        };
        assert(views[i0].transfer_id != views[j0].transfer_id);
    }
    assert forall|i: int| 0 <= i < after.len() implies (#[trigger] after[i]).wf() by {
        let i0 = if i < place {
            i
        } else {
            i + 1
        };
        assert(before[i0].wf());
    }
    assert forall|k: int| 0 <= k < left.len() implies (#[trigger] left[k]).transfer_id
        != views[place].transfer_id by {
        let k0 = if k < place {
            k
        } else {
            k + 1
        };
        if k0 < place {
            assert(views[k0].transfer_id != views[place].transfer_id);
        } else {
            assert(views[place].transfer_id != views[k0].transfer_id);
        }
    }
}

/// The deadline of a transfer whose first part comes at `now`.
pub open spec fn incoming_deadline(now: u64, timeout: u64) -> u64 {
    if now + timeout > u64::MAX {
        u64::MAX
    } else {
        (now + timeout) as u64
    }
}

/// What `receive_part` makes of the transfers and of the remembered ids, and
/// with which outcome. A part that a transfer can take is handed to the
/// decoder of its transfer under its encoding symbol id; the answer of the
/// decoder to all the symbols of the transfer decides between a part that is
/// confirmed and a payload that is complete, and it supplies the payload.
pub open spec fn part_received(
    before: Seq<IncomingView>,
    completed: Seq<Seq<u8>>,
    options: RldpOptions,
    part: MessagePart,
    now: u64,
    after: Seq<IncomingView>,
    completed_after: Seq<Seq<u8>>,
    outcome: PartOutcome,
) -> bool {
    let id = part.transfer_id@;
    let known = is_incoming(before, id);
    let place = if known {
        incoming_position(before, id)
    } else {
        before.len() as int
    };
    let started = if known {
        before
    } else {
        before.push(
            IncomingView {
                transfer_id: id,
                fec_type: part.fec_type,
                deadline: incoming_deadline(now, options.transfer_timeout),
                received: 0,
                symbols: Seq::empty(),
            },
        )
    };
    let ended = touched(completed, id, options.completed_log_size as int);
    if completed.contains(id) {
        outcome is Dropped && after == before && completed_after == completed
    } else if !part_acceptable(part, options.max_answer_size) {
        &&& outcome matches PartOutcome::Failed(error)
        &&& error == RldpError::ParametersRejected
        &&& after == before
        &&& completed_after == completed
    } else if !known && before.len() >= options.max_transfers {
        outcome is Dropped && after == before && completed_after == completed
    } else if started[place].fec_type != part.fec_type {
        &&& outcome matches PartOutcome::Failed(error)
        &&& error == RldpError::DecodeFailed
        &&& after == started.remove(place)
        &&& completed_after == ended
    } else if now > started[place].deadline {
        &&& outcome matches PartOutcome::Failed(error)
        &&& error == RldpError::TransferTimedOut
        &&& after == started.remove(place)
        &&& completed_after == ended
    } else {
        let symbols = started[place].symbols.push(
            (symbol_id_of(part.seqno, part.fec_type.symbols_count) as u32, part.data@),
        );
        match decoder_answer(part.fec_type.data_size as nat, symbols) {
            Some(rebuilt) => {
                &&& outcome matches PartOutcome::Complete { payload }
                &&& payload@ == rebuilt
                &&& payload@.len() == part.fec_type.data_size
                &&& after == started.remove(place)
                &&& completed_after == ended
            },
            None => {
                &&& outcome matches PartOutcome::Confirm { received }
                &&& received == if started[place].received == u32::MAX {
                    u32::MAX
                } else {
                    (started[place].received + 1) as u32
                }
                &&& after == started.update(
                    place,
                    IncomingView { received, symbols, ..started[place] },
                )
                &&& completed_after == completed
            },
        }
    }
}

} // verus!
