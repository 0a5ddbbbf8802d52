//! Proportional Rate Reduction (RFC 6937): bounds how many bytes may be sent
//! during a congestion-recovery episode so that the sending rate shrinks in
//! proportion to the data still outstanding instead of collapsing abruptly.
//!
//! The accountant only does the arithmetic. The surrounding congestion
//! controller decides when a recovery episode begins (routing a congestion
//! event here) and when its counters stop mattering.

use vstd::prelude::*;

verus! {

/// `a - b`, clamped at zero.
pub open spec fn sat_sub(a: int, b: int) -> int {
    if a >= b {
        a - b
    } else {
        0
    }
}

/// The larger of `a` and `b`.
pub open spec fn max_int(a: int, b: int) -> int {
    if a >= b {
        a
    } else {
        b
    }
}

/// The smaller of `a` and `b`.
pub open spec fn min_int(a: int, b: int) -> int {
    if a <= b {
        a
    } else {
        b
    }
}

/// Ceiling division, written over integers as `(n + d - 1) / d`.
pub open spec fn ceil_div(n: int, d: int) -> int
    recommends
        n >= 0,
        d > 0,
{
    (n + d - 1) / d
}

/// The transmit budget PRR grants after an ACK, as a function of the counters
/// already updated for that ACK.
///
/// Above the slow-start threshold (congestion avoidance) the budget is
/// `ceil(delivered * ssthresh / flight_at_recovery) - sent`, floored at zero;
/// a zero recovery-entry snapshot yields a zero budget, guarding the division.
/// At or below the threshold (slow-start reduction bound) the budget is
/// `min(max(delivered - sent, bytes_in_flight) + mds, ssthresh - bytes_in_flight)`,
/// every subtraction clamped at zero.
pub open spec fn spec_prr_budget(
    delivered: int,
    sent: int,
    flight_at_recovery: int,
    bytes_in_flight: int,
    ssthresh: int,
    mds: int,
) -> int {
    if bytes_in_flight > ssthresh {
        if flight_at_recovery == 0 {
            0
        } else {
            sat_sub(ceil_div(delivered * ssthresh, flight_at_recovery), sent)
        }
    } else {
        min_int(
            max_int(sat_sub(delivered, sent), bytes_in_flight) + mds,
            sat_sub(ssthresh, bytes_in_flight),
        )
    }
}

/// Proportional Rate Reduction accountant.
///
/// Four non-negative byte counters: what was sent and what was delivered since
/// the current recovery episode began, the bytes-in-flight snapshot taken at
/// recovery entry, and the transmit budget recomputed on each ACK.
#[derive(Clone, Debug)]
pub struct Prr {
    /// Total bytes sent during recovery (`prr_out`).
    pub bytes_sent_during_recovery: usize,
    /// Total bytes delivered during recovery (`prr_delivered`).
    pub bytes_delivered_during_recovery: usize,
    /// Bytes in flight at the start of recovery (`RecoverFS`).
    pub bytes_in_flight_at_recovery: usize,
    /// How many bytes may be sent in response to the latest ACK (`sndcnt`).
    pub bytes_allowed_on_ack: usize,
}

impl Prr {
    /// Whether a datagram of `datagram_size` bytes fits in the current budget.
    pub open spec fn spec_can_transmit(self, datagram_size: u16) -> bool {
        self.bytes_allowed_on_ack >= datagram_size as usize
    }

    pub fn new() -> (r: Self)
        ensures
            r.bytes_sent_during_recovery == 0,
            r.bytes_delivered_during_recovery == 0,
            r.bytes_in_flight_at_recovery == 0,
            r.bytes_allowed_on_ack == 0,
    {
        Self {
            bytes_in_flight_at_recovery: 0,
            bytes_sent_during_recovery: 0,
            bytes_delivered_during_recovery: 0,
            bytes_allowed_on_ack: 0,
        }
    }

    /// Enters (or re-enters) a recovery episode: snapshots `bytes_in_flight`
    /// and resets every other counter, the transmit budget included, to zero.
    pub fn on_congestion_event(&mut self, bytes_in_flight: u32)
        ensures
            final(self).bytes_in_flight_at_recovery == bytes_in_flight as usize,
            final(self).bytes_sent_during_recovery == 0,
            final(self).bytes_delivered_during_recovery == 0,
            final(self).bytes_allowed_on_ack == 0,
    {
        self.bytes_in_flight_at_recovery = bytes_in_flight as usize;
        self.bytes_sent_during_recovery = 0;
        self.bytes_delivered_during_recovery = 0;
        self.bytes_allowed_on_ack = 0;
    }

    /// Records a packet transmission during recovery: the sent counter grows
    /// by `bytes_sent` and the budget shrinks by the same amount, clamped at
    /// zero.
    pub fn on_packet_sent(&mut self, bytes_sent: usize)
        requires
            old(self).bytes_sent_during_recovery + bytes_sent <= usize::MAX,
        ensures
            final(self).bytes_sent_during_recovery == old(self).bytes_sent_during_recovery
                + bytes_sent,
            final(self).bytes_allowed_on_ack == sat_sub(
                old(self).bytes_allowed_on_ack as int,
                bytes_sent as int,
            ),
            final(self).bytes_delivered_during_recovery == old(
                self,
            ).bytes_delivered_during_recovery,
            final(self).bytes_in_flight_at_recovery == old(self).bytes_in_flight_at_recovery,
    {
        self.bytes_sent_during_recovery = self.bytes_sent_during_recovery + bytes_sent;
        self.bytes_allowed_on_ack = if self.bytes_allowed_on_ack >= bytes_sent {
            self.bytes_allowed_on_ack - bytes_sent
        } else {
            0
        };
    }

    /// Accounts for an ACK: the delivered counter grows by
    /// `bytes_acknowledged` and the transmit budget is recomputed per
    /// [`spec_prr_budget`]. The preconditions only keep the delivered counter
    /// and the budget arithmetic inside machine bounds.
    pub fn on_ack(
        &mut self,
        bytes_acknowledged: usize,
        bytes_in_flight: u32,
        slow_start_threshold: usize,
        max_datagram_size: u16,
    )
        requires
            old(self).bytes_delivered_during_recovery + bytes_acknowledged <= usize::MAX,
            (bytes_in_flight as int > slow_start_threshold as int && old(
                self,
            ).bytes_in_flight_at_recovery > 0) ==> (old(self).bytes_delivered_during_recovery
                + bytes_acknowledged) * slow_start_threshold as int + old(
                self,
            ).bytes_in_flight_at_recovery - 1 <= usize::MAX,
            (bytes_in_flight as int <= slow_start_threshold as int) ==> max_int(
                sat_sub(
                    old(self).bytes_delivered_during_recovery + bytes_acknowledged,
                    old(self).bytes_sent_during_recovery as int,
                ),
                bytes_in_flight as int,
            ) + max_datagram_size as int <= usize::MAX,
        ensures
            final(self).bytes_delivered_during_recovery == old(
                self,
            ).bytes_delivered_during_recovery + bytes_acknowledged,
            final(self).bytes_sent_during_recovery == old(self).bytes_sent_during_recovery,
            final(self).bytes_in_flight_at_recovery == old(self).bytes_in_flight_at_recovery,
            final(self).bytes_allowed_on_ack == spec_prr_budget(
                old(self).bytes_delivered_during_recovery + bytes_acknowledged,
                old(self).bytes_sent_during_recovery as int,
                old(self).bytes_in_flight_at_recovery as int,
                bytes_in_flight as int,
                slow_start_threshold as int,
                max_datagram_size as int,
            ),
    {
        let bytes_in_flight: usize = bytes_in_flight as usize;
        self.bytes_delivered_during_recovery = self.bytes_delivered_during_recovery
            + bytes_acknowledged;

        self.bytes_allowed_on_ack = if bytes_in_flight > slow_start_threshold {
            if self.bytes_in_flight_at_recovery == 0 {
                0
            } else {
                let sndcnt = (self.bytes_delivered_during_recovery * slow_start_threshold + (
                self.bytes_in_flight_at_recovery - 1)) / self.bytes_in_flight_at_recovery;
                if sndcnt >= self.bytes_sent_during_recovery {
                    sndcnt - self.bytes_sent_during_recovery
                } else {
                    0
                }
            }
        } else {
            let catch_up = if self.bytes_delivered_during_recovery
                >= self.bytes_sent_during_recovery {
                self.bytes_delivered_during_recovery - self.bytes_sent_during_recovery
            } else {
                0
            };
            let limit = (if catch_up >= bytes_in_flight {
                catch_up
            } else {
                bytes_in_flight
            }) + max_datagram_size as usize;
            let headroom = if slow_start_threshold >= bytes_in_flight {
                slow_start_threshold - bytes_in_flight
            } else {
                0
            };
            if limit <= headroom {
                limit
            } else {
                headroom
            }
        };
    }

    /// Pure gate consulted before emitting a datagram while in recovery: true
    /// exactly when the budget covers `datagram_size`.
    pub fn can_transmit(&self, datagram_size: u16) -> (r: bool)
        ensures
            r == self.spec_can_transmit(datagram_size),
    {
        self.bytes_allowed_on_ack >= datagram_size as usize
    }

    /// Reports whether PRR governance is active for this run. Activation comes
    /// from an optional process-wide enablement signal; the verified core has
    /// no source for such a signal, so here governance defaults to disabled.
    /// An embedding that can probe its environment makes that decision itself.
    pub fn is_enabled(&self) -> (r: bool)
        ensures
            !r,
    {
        false
    }
}

/// Budget non-negativity law: for all valid (non-negative) inputs, the budget
/// PRR computes on an ACK is never negative, in either regime.
pub proof fn lemma_budget_non_negative(
    delivered: int,
    sent: int,
    flight_at_recovery: int,
    bytes_in_flight: int,
    ssthresh: int,
    mds: int,
)
    requires
        delivered >= 0,
        sent >= 0,
        flight_at_recovery >= 0,
        bytes_in_flight >= 0,
        ssthresh >= 0,
        mds >= 0,
    ensures
        spec_prr_budget(delivered, sent, flight_at_recovery, bytes_in_flight, ssthresh, mds) >= 0,
{
}

/// Transmission gate law: whenever `can_transmit` answers true, the budget
/// actually covers the datagram; it never answers true while
/// `bytes_allowed_on_ack` is below the datagram size.
pub proof fn lemma_transmit_requires_budget(prr: Prr, datagram_size: u16)
    requires
        prr.spec_can_transmit(datagram_size),
    ensures
        prr.bytes_allowed_on_ack >= datagram_size as usize,
{
}

/// Reset law: immediately after a congestion event the budget is zero, so no
/// datagram of one byte or more may be transmitted.
pub proof fn lemma_reset_blocks_transmit(prr: Prr, datagram_size: u16)
    requires
        prr.bytes_allowed_on_ack == 0,
        datagram_size >= 1,
    ensures
        !prr.spec_can_transmit(datagram_size),
{
}

} // verus!
