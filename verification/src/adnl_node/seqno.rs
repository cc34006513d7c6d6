//! Sequence numbers of received packets: a packet is taken unless it lies a
//! whole window behind the newest one taken so far.
use vstd::prelude::*;

verus! {

/// Width of the window in which old sequence numbers are still taken.
pub const SEQNO_WINDOW: u64 = 64;

/// Whether a packet numbered `seqno` is taken when `highest` is the largest
/// number taken so far.
pub open spec fn within_window(highest: u64, seqno: u64) -> bool {
    seqno + SEQNO_WINDOW > highest
}

/// The largest number taken once `seqno` has been offered.
pub open spec fn highest_after(highest: u64, seqno: u64) -> u64 {
    if within_window(highest, seqno) && seqno > highest {
        seqno
    } else {
        highest
    }
}

/// The largest sequence number taken from one peer.
#[derive(Clone, Copy, Debug, PartialEq, Eq, Structural)]
pub struct ReceivedSeqno {
    pub highest: u64,
}

impl ReceivedSeqno {
    /// The state before any packet.
    pub open spec fn start() -> ReceivedSeqno {
        ReceivedSeqno { highest: 0 }
    }

    /// Whether a packet numbered `seqno` is taken in this state.
    pub open spec fn accepts(&self, seqno: u64) -> bool {
        within_window(self.highest, seqno)
    }

    /// The state once `seqno` has been offered.
    pub open spec fn after(&self, seqno: u64) -> ReceivedSeqno {
        ReceivedSeqno { highest: highest_after(self.highest, seqno) }
    }

    /// The state before any packet.
    pub fn new() -> (state: Self)
        ensures
            state == Self::start(),
    {
        ReceivedSeqno { highest: 0 }
    }

    /// Offers the packet numbered `seqno`: says whether it is taken and
    /// remembers it if so.
    pub fn accept(&mut self, seqno: u64) -> (accepted: bool)
        ensures
            accepted == old(self).accepts(seqno),
            *final(self) == old(self).after(seqno),
    {
        if self.highest >= SEQNO_WINDOW && seqno <= self.highest - SEQNO_WINDOW {
            return false;
        }
        if seqno > self.highest {
            self.highest = seqno;
        }
        true
    }
}

/// The state after the packets `offered`, one after another, from the start.
pub open spec fn state_after(offered: Seq<u64>) -> ReceivedSeqno
    decreases offered.len(),
{
    if offered.len() == 0 {
        ReceivedSeqno::start()
    } else {
        state_after(offered.drop_last()).after(offered.last())
    }
}

/// Whether the packet at place `i` of `offered` was taken.
pub open spec fn taken_at(offered: Seq<u64>, i: int) -> bool {
    state_after(offered.take(i)).accepts(offered[i])
}

/// Every packet taken among the first `n` is at most the highest number
/// then.
pub proof fn lemma_highest_bounds(offered: Seq<u64>, i: int, n: int)
    requires
        0 <= i < n <= offered.len(),
        taken_at(offered, i),
    ensures
        offered[i] <= state_after(offered.take(n)).highest,
    decreases n,
{
    let prefix = offered.take(n);
    assert(prefix.drop_last() =~= offered.take(n - 1));
    assert(prefix.last() == offered[n - 1]);
    if i < n - 1 {
        lemma_highest_bounds(offered, i, n - 1);
    }
}

/// Sequence numbers never fall a whole window behind: of two packets taken
/// from one peer, the later one is numbered above the earlier one's number
/// less the window.
pub proof fn lemma_seqno_never_regresses(offered: Seq<u64>, i: int, j: int)
    requires
        0 <= i < j < offered.len(),
        taken_at(offered, i),
        taken_at(offered, j),
    ensures
        offered[j] > offered[i] - SEQNO_WINDOW,
{
    lemma_highest_bounds(offered, i, j);
}

} // verus!
