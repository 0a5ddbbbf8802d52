//! The sent-packet ledger: an ordered mapping from packet number to
//! [`SentPacketInfo`], scoped to one packet-number space, recording every
//! packet that was sent but not yet acknowledged or declared lost.
//!
//! The ledger is a vector of entries kept strictly ascending by packet-number
//! value, all from one space. Contracts speak of the entry sequence (the
//! ledger's view) through [`spec_lookup`] and the sortedness predicates below.

use crate::packet_number::{PacketNumber, PacketNumberRange, PacketNumberSpace, Timestamp};
use vstd::prelude::*;

verus! {

/// Value record for one sent packet.
#[derive(Clone, Copy, Debug, PartialEq, Eq, Structural, Hash)]
pub struct SentPacketInfo {
    /// Whether the packet counts towards bytes in flight.
    pub in_flight: bool,
    /// Wire bytes sent in the packet, excluding lower-layer transport overhead
    /// but including protocol framing overhead.
    pub sent_bytes: u64,
    /// The monotonic clock reading at which the packet was sent.
    pub time_sent: Timestamp,
}

impl SentPacketInfo {
    pub fn new(in_flight: bool, sent_bytes: u64, time_sent: Timestamp) -> (r: Self)
        ensures
            r.in_flight == in_flight,
            r.sent_bytes == sent_bytes,
            r.time_sent == time_sent,
    {
        SentPacketInfo { in_flight, sent_bytes, time_sent }
    }
}

/// One ledger entry: a packet number and the record stored under it.
pub type Entry = (PacketNumber, SentPacketInfo);

/// Entries are strictly ascending by packet-number value.
pub open spec fn entries_ordered(s: Seq<Entry>) -> bool {
    forall|i: int, j: int|
        0 <= i < j < s.len() ==> (#[trigger] s[i]).0.value < (#[trigger] s[j]).0.value
}

/// Every entry's packet number belongs to `space`.
pub open spec fn entries_in_space(s: Seq<Entry>, space: PacketNumberSpace) -> bool {
    forall|i: int| 0 <= i < s.len() ==> (#[trigger] s[i]).0.space == space
}

/// Whether some entry is keyed by `pn`.
pub open spec fn has_key(s: Seq<Entry>, pn: PacketNumber) -> bool {
    exists|i: int| 0 <= i < s.len() && (#[trigger] s[i]).0 == pn
}

/// The index of the entry keyed by `pn`; meaningful only when `has_key` holds
/// (under [`entries_ordered`] that index is unique).
pub open spec fn key_index(s: Seq<Entry>, pn: PacketNumber) -> int {
    choose|i: int| 0 <= i < s.len() && (#[trigger] s[i]).0 == pn
}

/// The record stored under `pn`, if any.
pub open spec fn spec_lookup(s: Seq<Entry>, pn: PacketNumber) -> Option<SentPacketInfo> {
    if has_key(s, pn) {
        Some(s[key_index(s, pn)].1)
    } else {
        None
    }
}

/// Where a fresh key of value `v` goes in an ordered entry sequence: past
/// every smaller value, before everything else.
pub open spec fn insert_pos(s: Seq<Entry>, v: u64) -> int
    decreases s.len(),
{
    if s.len() == 0 {
        0
    } else if s[0].0.value < v {
        1 + insert_pos(s.drop_first(), v)
    } else {
        0
    }
}

/// The entry sequence after storing `info` under `pn`: an existing entry for
/// `pn` is overwritten in place, a fresh key is spliced in at its ordered
/// position.
pub open spec fn spec_inserted(s: Seq<Entry>, pn: PacketNumber, info: SentPacketInfo) -> Seq<
    Entry,
> {
    if has_key(s, pn) {
        s.update(key_index(s, pn), (pn, info))
    } else {
        s.insert(insert_pos(s, pn.value), (pn, info))
    }
}

/// The entry sequence after removing the entry keyed by `pn`, if any; removal
/// of an absent key changes nothing.
pub open spec fn spec_removed(s: Seq<Entry>, pn: PacketNumber) -> Seq<Entry> {
    if has_key(s, pn) {
        s.remove(key_index(s, pn))
    } else {
        s
    }
}

/// Under [`entries_ordered`], the entry keyed by `pn` sits at exactly one
/// index, and [`key_index`] names it.
proof fn lemma_key_index_pinned(s: Seq<Entry>, pn: PacketNumber, i: int)
    requires
        entries_ordered(s),
        0 <= i < s.len(),
        s[i].0 == pn,
    ensures
        has_key(s, pn),
        key_index(s, pn) == i,
{
    assert(has_key(s, pn));
    let k = key_index(s, pn);
    assert(0 <= k < s.len() && s[k].0 == pn);
    if k < i {
        assert(s[k].0.value < s[i].0.value);
        assert(false);
    }
    if i < k {
        assert(s[i].0.value < s[k].0.value);
        assert(false);
    }
}

/// Dropping the first entry keeps the ordering.
proof fn lemma_drop_first_ordered(s: Seq<Entry>)
    requires
        entries_ordered(s),
        s.len() > 0,
    ensures
        entries_ordered(s.drop_first()),
{
    let t = s.drop_first();
    assert forall|i: int, j: int| 0 <= i < j < t.len() implies (#[trigger] t[i]).0.value < (
    #[trigger] t[j]).0.value by {
        assert(t[i] == s[i + 1]);
        assert(t[j] == s[j + 1]);
    }
}

/// [`insert_pos`] really is the ordered position of value `v`: everything
/// before it is smaller, nothing after it is.
proof fn lemma_insert_pos_properties(s: Seq<Entry>, v: u64)
    requires
        entries_ordered(s),
    ensures
        0 <= insert_pos(s, v) <= s.len(),
        forall|j: int| 0 <= j < insert_pos(s, v) ==> (#[trigger] s[j]).0.value < v,
        forall|j: int| insert_pos(s, v) <= j < s.len() ==> v <= (#[trigger] s[j]).0.value,
    decreases s.len(),
{
    if s.len() == 0 {
    } else if s[0].0.value < v {
        let t = s.drop_first();
        lemma_drop_first_ordered(s);
        lemma_insert_pos_properties(t, v);
        let p = insert_pos(s, v);
        assert(p == 1 + insert_pos(t, v));
        assert forall|j: int| 0 <= j < p implies (#[trigger] s[j]).0.value < v by {
            if j > 0 {
                assert(t[j - 1] == s[j]);
            }
        }
        assert forall|j: int| p <= j < s.len() implies v <= (#[trigger] s[j]).0.value by {
            assert(t[j - 1] == s[j]);
        }
    } else {
        assert forall|j: int| 0 <= j < s.len() implies v <= (#[trigger] s[j]).0.value by {
            if j > 0 {
                assert(s[0].0.value < s[j].0.value);
            }
        }
    }
}

/// Two indices that both split an ordered sequence around value `v` coincide.
proof fn lemma_split_pos_unique(s: Seq<Entry>, v: u64, i1: int, i2: int)
    requires
        0 <= i1 <= s.len(),
        0 <= i2 <= s.len(),
        forall|j: int| 0 <= j < i1 ==> (#[trigger] s[j]).0.value < v,
        forall|j: int| i1 <= j < s.len() ==> v <= (#[trigger] s[j]).0.value,
        forall|j: int| 0 <= j < i2 ==> (#[trigger] s[j]).0.value < v,
        forall|j: int| i2 <= j < s.len() ==> v <= (#[trigger] s[j]).0.value,
    ensures
        i1 == i2,
{
    if i1 < i2 {
        assert(s[i1].0.value < v);
        assert(v <= s[i1].0.value);
    }
    if i2 < i1 {
        assert(s[i2].0.value < v);
        assert(v <= s[i2].0.value);
    }
}

/// Appending an entry whose value exceeds everything present keeps the
/// ordering and extends the lookup function at exactly the new key.
proof fn lemma_lookup_push(s: Seq<Entry>, e: Entry)
    requires
        entries_ordered(s),
        forall|a: int| 0 <= a < s.len() ==> (#[trigger] s[a]).0.value < e.0.value,
    ensures
        entries_ordered(s.push(e)),
        spec_lookup(s.push(e), e.0) == Some(e.1),
        forall|q: PacketNumber|
            q != e.0 ==> #[trigger] spec_lookup(s.push(e), q) == spec_lookup(s, q),
{
    let t = s.push(e);
    assert(t[s.len() as int] == e);
    assert forall|i: int, j: int| 0 <= i < j < t.len() implies (#[trigger] t[i]).0.value < (
    #[trigger] t[j]).0.value by {
        if j < s.len() {
            assert(t[i] == s[i] && t[j] == s[j]);
        } else {
            assert(t[j] == e);
            assert(t[i] == s[i]);
        }
    }
    lemma_key_index_pinned(t, e.0, s.len() as int);
    assert forall|q: PacketNumber| q != e.0 implies #[trigger] spec_lookup(t, q) == spec_lookup(
        s,
        q,
    ) by {
        if has_key(s, q) {
            let k = key_index(s, q);
            assert(0 <= k < s.len() && s[k].0 == q);
            assert(t[k] == s[k]);
            lemma_key_index_pinned(t, q, k);
            lemma_key_index_pinned(s, q, k);
        } else {
            if has_key(t, q) {
                let k = key_index(t, q);
                assert(0 <= k < t.len() && t[k].0 == q);
                assert(k != s.len() as int);
                assert(t[k] == s[k]);
                assert(has_key(s, q));
            }
        }
    }
}

/// What storing a record does to an ordered, single-space entry sequence: the
/// result is still ordered and in the same space, it answers the stored key
/// with the new record and every other key as before, and it grows by one
/// entry exactly when the key was absent.
pub proof fn lemma_inserted(s: Seq<Entry>, pn: PacketNumber, info: SentPacketInfo)
    requires
        entries_ordered(s),
        entries_in_space(s, pn.space),
    ensures
        entries_ordered(spec_inserted(s, pn, info)),
        entries_in_space(spec_inserted(s, pn, info), pn.space),
        spec_lookup(spec_inserted(s, pn, info), pn) == Some(info),
        forall|q: PacketNumber|
            q != pn ==> #[trigger] spec_lookup(spec_inserted(s, pn, info), q) == spec_lookup(s, q),
        spec_inserted(s, pn, info).len() == s.len() + if has_key(s, pn) {
            0int
        } else {
            1int
        },
{
    let t = spec_inserted(s, pn, info);
    if has_key(s, pn) {
        let k = key_index(s, pn);
        assert(0 <= k < s.len() && s[k].0 == pn);
        assert(t == s.update(k, (pn, info)));
        assert forall|i: int| 0 <= i < t.len() implies (#[trigger] t[i]).0 == s[i].0 by {
            if i != k {
                assert(t[i] == s[i]);
            }
        }
        assert(entries_ordered(t));
        assert(entries_in_space(t, pn.space));
        lemma_key_index_pinned(t, pn, k);
        assert(spec_lookup(t, pn) == Some(info));
        assert forall|q: PacketNumber| q != pn implies #[trigger] spec_lookup(t, q) == spec_lookup(
            s,
            q,
        ) by {
            if has_key(s, q) {
                let m = key_index(s, q);
                assert(0 <= m < s.len() && s[m].0 == q);
                assert(m != k);
                assert(t[m] == s[m]);
                lemma_key_index_pinned(t, q, m);
                lemma_key_index_pinned(s, q, m);
            } else {
                if has_key(t, q) {
                    let m = key_index(t, q);
                    assert(0 <= m < t.len() && t[m].0 == q);
                    assert(m != k);
                    assert(t[m] == s[m]);
                    assert(has_key(s, q));
                }
            }
        }
    } else {
        let p = insert_pos(s, pn.value);
        lemma_insert_pos_properties(s, pn.value);
        let e = (pn, info);
        assert(t == s.insert(p, e));
        s.insert_ensures(p, e);
        // a fresh key in a single-space sequence has a fresh value
        assert forall|j: int| 0 <= j < s.len() implies (#[trigger] s[j]).0.value != pn.value by {
            if s[j].0.value == pn.value {
                assert(s[j].0.space == pn.space);
                assert(s[j].0 == pn);
                assert(has_key(s, pn));
            }
        }
        assert forall|i: int, j: int| 0 <= i < j < t.len() implies (#[trigger] t[i]).0.value < (
        #[trigger] t[j]).0.value by {
            if i < p && j < p {
                assert(t[i] == s[i] && t[j] == s[j]);
            } else if i < p && j == p {
                assert(t[i] == s[i]);
                assert(s[i].0.value < pn.value);
            } else if i < p && j > p {
                assert(t[i] == s[i] && t[j] == s[j - 1]);
                assert(s[i].0.value < pn.value);
                assert(pn.value <= s[j - 1].0.value);
            } else if i == p {
                assert(t[j] == s[j - 1]);
                assert(pn.value <= s[j - 1].0.value);
                assert(s[j - 1].0.value != pn.value);
            } else {
                assert(t[i] == s[i - 1] && t[j] == s[j - 1]);
            }
        }
        assert forall|i: int| 0 <= i < t.len() implies (#[trigger] t[i]).0.space == pn.space by {
            if i < p {
                assert(t[i] == s[i]);
            } else if i > p {
                assert(t[i] == s[i - 1]);
            }
        }
        assert(t[p] == e);
        lemma_key_index_pinned(t, pn, p);
        assert(spec_lookup(t, pn) == Some(info));
        assert forall|q: PacketNumber| q != pn implies #[trigger] spec_lookup(t, q) == spec_lookup(
            s,
            q,
        ) by {
            if has_key(s, q) {
                let m = key_index(s, q);
                assert(0 <= m < s.len() && s[m].0 == q);
                if m < p {
                    assert(t[m] == s[m]);
                    lemma_key_index_pinned(t, q, m);
                } else {
                    assert(t[m + 1] == s[m]);
                    lemma_key_index_pinned(t, q, m + 1);
                }
                lemma_key_index_pinned(s, q, m);
            } else {
                if has_key(t, q) {
                    let m = key_index(t, q);
                    assert(0 <= m < t.len() && t[m].0 == q);
                    assert(m != p);
                    if m < p {
                        assert(t[m] == s[m]);
                    } else {
                        assert(t[m] == s[m - 1]);
                    }
                    assert(has_key(s, q));
                }
            }
        }
    }
}

/// What removal does to an ordered entry sequence: the result is still
/// ordered and loses no other key's record; the removed key answers nothing
/// afterwards; removing an absent key changes nothing at all.
pub proof fn lemma_removed(s: Seq<Entry>, pn: PacketNumber)
    requires
        entries_ordered(s),
    ensures
        entries_ordered(spec_removed(s, pn)),
        forall|space: PacketNumberSpace|
            entries_in_space(s, space) ==> entries_in_space(#[trigger] spec_removed(s, pn), space),
        spec_lookup(spec_removed(s, pn), pn) is None,
        forall|q: PacketNumber|
            q != pn ==> #[trigger] spec_lookup(spec_removed(s, pn), q) == spec_lookup(s, q),
        !has_key(s, pn) ==> spec_removed(s, pn) == s,
        has_key(s, pn) ==> spec_removed(s, pn).len() == s.len() - 1,
{
    let t = spec_removed(s, pn);
    if has_key(s, pn) {
        let k = key_index(s, pn);
        assert(0 <= k < s.len() && s[k].0 == pn);
        assert(t == s.remove(k));
        s.remove_ensures(k);
        assert forall|i: int, j: int| 0 <= i < j < t.len() implies (#[trigger] t[i]).0.value < (
        #[trigger] t[j]).0.value by {
            if i < k && j < k {
                assert(t[i] == s[i] && t[j] == s[j]);
            } else if i < k {
                assert(t[i] == s[i] && t[j] == s[j + 1]);
            } else {
                assert(t[i] == s[i + 1] && t[j] == s[j + 1]);
            }
        }
        assert forall|space: PacketNumberSpace|
            entries_in_space(s, space) implies entries_in_space(
            #[trigger] spec_removed(s, pn),
            space,
        ) by {
            assert forall|i: int| 0 <= i < t.len() implies (#[trigger] t[i]).0.space == space by {
                if i < k {
                    assert(t[i] == s[i]);
                } else {
                    assert(t[i] == s[i + 1]);
                }
            }
        }
        if has_key(t, pn) {
            let m = key_index(t, pn);
            assert(0 <= m < t.len() && t[m].0 == pn);
            if m < k {
                assert(t[m] == s[m]);
                lemma_key_index_pinned(s, pn, m);
            } else {
                assert(t[m] == s[m + 1]);
                lemma_key_index_pinned(s, pn, m + 1);
            }
        }
        assert(spec_lookup(t, pn) is None);
        assert forall|q: PacketNumber| q != pn implies #[trigger] spec_lookup(t, q) == spec_lookup(
            s,
            q,
        ) by {
            if has_key(s, q) {
                let m = key_index(s, q);
                assert(0 <= m < s.len() && s[m].0 == q);
                assert(m != k);
                if m < k {
                    assert(t[m] == s[m]);
                    lemma_key_index_pinned(t, q, m);
                } else {
                    assert(t[m - 1] == s[m]);
                    lemma_key_index_pinned(t, q, m - 1);
                }
                lemma_key_index_pinned(s, q, m);
            } else {
                if has_key(t, q) {
                    let m = key_index(t, q);
                    assert(0 <= m < t.len() && t[m].0 == q);
                    if m < k {
                        assert(t[m] == s[m]);
                    } else {
                        assert(t[m] == s[m + 1]);
                    }
                    assert(has_key(s, q));
                }
            }
        }
    }
}

/// Idempotent-removal law: removing an absent key leaves the ledger's
/// contents unchanged, and after any removal the removed key is absent, so
/// removing the same key a second time changes nothing and finds nothing.
pub proof fn lemma_remove_idempotent(s: Seq<Entry>, pn: PacketNumber)
    requires
        entries_ordered(s),
    ensures
        spec_lookup(s, pn) is None ==> spec_removed(s, pn) == s,
        spec_lookup(spec_removed(s, pn), pn) is None,
        spec_removed(spec_removed(s, pn), pn) == spec_removed(s, pn),
{
    lemma_removed(s, pn);
    lemma_removed(spec_removed(s, pn), pn);
    if has_key(s, pn) {
        assert(spec_lookup(s, pn) is Some);
    }
    assert(!has_key(spec_removed(s, pn), pn));
}

/// Round-trip law: storing a record under a packet number makes exactly that
/// record the answer for that packet number while every other packet number
/// keeps its previous answer; and removing a freshly inserted key restores
/// the previous contents exactly.
pub proof fn lemma_insert_round_trip(s: Seq<Entry>, pn: PacketNumber, info: SentPacketInfo)
    requires
        entries_ordered(s),
        entries_in_space(s, pn.space),
    ensures
        spec_lookup(spec_inserted(s, pn, info), pn) == Some(info),
        forall|q: PacketNumber|
            q != pn ==> #[trigger] spec_lookup(spec_inserted(s, pn, info), q) == spec_lookup(s, q),
        !has_key(s, pn) ==> spec_removed(spec_inserted(s, pn, info), pn) == s,
{
    lemma_inserted(s, pn, info);
    let t = spec_inserted(s, pn, info);
    if !has_key(s, pn) {
        let p = insert_pos(s, pn.value);
        lemma_insert_pos_properties(s, pn.value);
        let e = (pn, info);
        assert(t == s.insert(p, e));
        s.insert_ensures(p, e);
        assert(t[p] == e);
        lemma_key_index_pinned(t, pn, p);
        assert(spec_removed(t, pn) == t.remove(p));
        t.remove_ensures(p);
        assert forall|i: int| 0 <= i < s.len() implies #[trigger] t.remove(p)[i] == s[i] by {
            if i < p {
                assert(t.remove(p)[i] == t[i]);
            } else {
                assert(t.remove(p)[i] == t[i + 1]);
            }
        }
        assert(t.remove(p) =~= s);
    }
}

/// Ordered per-space store of the packets currently considered in flight or
/// awaiting acknowledgment confirmation.
#[derive(Clone, Debug)]
pub struct SentPackets {
    sent_packets: Vec<Entry>,
}

impl View for SentPackets {
    type V = Seq<Entry>;

    closed spec fn view(&self) -> Seq<Entry> {
        self.sent_packets@
    }
}

impl Default for SentPackets {
    /// An empty ledger.
    fn default() -> (r: Self)
        ensures
            r@ == Seq::<Entry>::empty(),
            r.wf(),
    {
        SentPackets { sent_packets: Vec::new() }
    }
}

impl SentPackets {
    /// The ledger's invariant: entries strictly ascending by packet-number
    /// value. Uniqueness of keys follows.
    pub open spec fn wf(self) -> bool {
        entries_ordered(self@)
    }

    /// Every stored packet number belongs to `space`; the cross-space guard
    /// every query and mutation demands of its argument.
    pub open spec fn in_space(self, space: PacketNumberSpace) -> bool {
        entries_in_space(self@, space)
    }

    /// Stores `sent_packet_info` under `packet_number`, silently overwriting
    /// any entry already present for it. The packet number must belong to the
    /// space this ledger is scoped to: every stored entry's space.
    pub fn insert(&mut self, packet_number: PacketNumber, sent_packet_info: SentPacketInfo)
        requires
            old(self).wf(),
            old(self).in_space(packet_number.space),
        ensures
            final(self).wf(),
            final(self).in_space(packet_number.space),
            final(self)@ == spec_inserted(old(self)@, packet_number, sent_packet_info),
            spec_lookup(final(self)@, packet_number) == Some(sent_packet_info),
            forall|q: PacketNumber|
                q != packet_number ==> #[trigger] spec_lookup(final(self)@, q) == spec_lookup(
                    old(self)@,
                    q,
                ),
            final(self)@.len() == old(self)@.len() + if has_key(old(self)@, packet_number) {
                0int
            } else {
                1int
            },
    {
        let ghost s0 = self@;
        let n = self.sent_packets.len();
        let mut i: usize = 0;
        while i < n && self.sent_packets[i].0.value < packet_number.value
            invariant
                self.sent_packets@ == s0,
                n == s0.len(),
                i <= n,
                forall|j: int| 0 <= j < i ==> (#[trigger] s0[j]).0.value < packet_number.value,
            decreases n - i,
        {
            i = i + 1;
        }
        let e = (packet_number, sent_packet_info);
        if i < n && self.sent_packets[i].0.value == packet_number.value {
            proof {
                assert(s0[i as int].0.space == packet_number.space);
                assert(s0[i as int].0 == packet_number);
                lemma_key_index_pinned(s0, packet_number, i as int);
            }
            self.sent_packets.remove(i);
            self.sent_packets.insert(i, e);
            proof {
                assert(self.sent_packets@ =~= s0.update(i as int, e));
                lemma_inserted(s0, packet_number, sent_packet_info);
            }
        } else {
            proof {
                assert forall|j: int| i <= j < n implies packet_number.value <= (
                #[trigger] s0[j]).0.value by {
                    if j > i {
                        assert(s0[i as int].0.value < s0[j].0.value);
                    }
                }
                if has_key(s0, packet_number) {
                    let m = key_index(s0, packet_number);
                    assert(0 <= m < s0.len() && s0[m].0 == packet_number);
                }
                lemma_insert_pos_properties(s0, packet_number.value);
                lemma_split_pos_unique(
                    s0,
                    packet_number.value,
                    i as int,
                    insert_pos(s0, packet_number.value),
                );
            }
            self.sent_packets.insert(i, e);
            proof {
                lemma_inserted(s0, packet_number, sent_packet_info);
            }
        }
    }

    /// Point lookup: the record stored under `packet_number`, or nothing.
    /// Does not mutate. The packet number must belong to the ledger's space.
    pub fn get(&self, packet_number: PacketNumber) -> (r: Option<&SentPacketInfo>)
        requires
            self.wf(),
            self.in_space(packet_number.space),
        ensures
            spec_lookup(self@, packet_number) == (match r {
                Some(info) => Some(*info),
                None => None::<SentPacketInfo>,
            }),
    {
        let n = self.sent_packets.len();
        let mut i: usize = 0;
        while i < n
            invariant
                self.wf(),
                self.in_space(packet_number.space),
                n == self@.len(),
                i <= n,
                forall|j: int| 0 <= j < i ==> (#[trigger] self@[j]).0 != packet_number,
            decreases n - i,
        {
            if self.sent_packets[i].0.value == packet_number.value {
                proof {
                    assert(self@[i as int].0.space == packet_number.space);
                    assert(self@[i as int].0 == packet_number);
                    lemma_key_index_pinned(self@, packet_number, i as int);
                }
                return Some(&self.sent_packets[i].1);
            }
            proof {
                assert(self@[i as int].0 != packet_number);
            }
            i = i + 1;
        }
        proof {
            if has_key(self@, packet_number) {
                let m = key_index(self@, packet_number);
                assert(0 <= m < self@.len() && self@[m].0 == packet_number);
            }
        }
        None
    }

    /// Deletes the entry under `packet_number` and returns its record if one
    /// was present; removing an absent key changes nothing and returns
    /// nothing, so double removal is harmless. The packet number must belong
    /// to the ledger's space.
    pub fn remove(&mut self, packet_number: PacketNumber) -> (r: Option<SentPacketInfo>)
        requires
            old(self).wf(),
            old(self).in_space(packet_number.space),
        ensures
            final(self).wf(),
            final(self).in_space(packet_number.space),
            final(self)@ == spec_removed(old(self)@, packet_number),
            r == spec_lookup(old(self)@, packet_number),
            spec_lookup(final(self)@, packet_number) is None,
            forall|q: PacketNumber|
                q != packet_number ==> #[trigger] spec_lookup(final(self)@, q) == spec_lookup(
                    old(self)@,
                    q,
                ),
            !has_key(old(self)@, packet_number) ==> final(self)@ == old(self)@,
    {
        let ghost s0 = self@;
        let n = self.sent_packets.len();
        let mut i: usize = 0;
        while i < n
            invariant
                self.sent_packets@ == s0,
                s0 == old(self)@,
                entries_ordered(s0),
                entries_in_space(s0, packet_number.space),
                n == s0.len(),
                i <= n,
                forall|j: int| 0 <= j < i ==> (#[trigger] s0[j]).0 != packet_number,
            decreases n - i,
        {
            if self.sent_packets[i].0.value == packet_number.value {
                proof {
                    assert(s0[i as int].0.space == packet_number.space);
                    assert(s0[i as int].0 == packet_number);
                    lemma_key_index_pinned(s0, packet_number, i as int);
                    lemma_removed(s0, packet_number);
                }
                let removed = self.sent_packets.remove(i);
                return Some(removed.1);
            }
            proof {
                assert(s0[i as int].0 != packet_number);
            }
            i = i + 1;
        }
        proof {
            if has_key(s0, packet_number) {
                let m = key_index(s0, packet_number);
                assert(0 <= m < s0.len() && s0[m].0 == packet_number);
            }
            lemma_removed(s0, packet_number);
        }
        None
    }

    /// All stored entries whose packet number lies within the inclusive
    /// bounds, ascending by packet number; a fresh vector, so iteration can
    /// restart at will and never disturbs the ledger. The range must come
    /// from the ledger's space.
    pub fn range(&self, range: PacketNumberRange) -> (r: Vec<Entry>)
        requires
            self.wf(),
            range.wf(),
            self.in_space(range.spec_space()),
        ensures
            entries_ordered(r@),
            entries_in_space(r@, range.spec_space()),
            forall|q: PacketNumber|
                #[trigger] spec_lookup(r@, q) == if range.spec_contains(q) {
                    spec_lookup(self@, q)
                } else {
                    None::<SentPacketInfo>
                },
    {
        let lo = range.start().value;
        let hi = range.end().value;
        let mut out: Vec<Entry> = Vec::new();
        let n = self.sent_packets.len();
        let mut i: usize = 0;
        while i < n
            invariant
                self.wf(),
                range.wf(),
                self.in_space(range.spec_space()),
                lo == range.spec_start().value,
                hi == range.spec_end().value,
                n == self@.len(),
                i <= n,
                entries_ordered(out@),
                entries_in_space(out@, range.spec_space()),
                forall|a: int|
                    0 <= a < out@.len() ==> exists|j: int|
                        0 <= j < i && #[trigger] out@[a] == self@[j],
                forall|q: PacketNumber|
                    #[trigger] spec_lookup(out@, q) == if range.spec_contains(q) {
                        spec_lookup(self@.subrange(0, i as int), q)
                    } else {
                        None::<SentPacketInfo>
                    },
            decreases n - i,
        {
            let ghost pre = self@.subrange(0, i as int);
            let ghost post = self@.subrange(0, i + 1 as int);
            let ghost out0 = out@;
            let e = self.sent_packets[i];
            proof {
                assert(post =~= pre.push(e));
                assert(entries_ordered(pre)) by {
                    assert forall|a: int, b: int| 0 <= a < b < pre.len() implies (
                    #[trigger] pre[a]).0.value < (#[trigger] pre[b]).0.value by {
                        assert(pre[a] == self@[a] && pre[b] == self@[b]);
                    }
                }
                assert forall|a: int| 0 <= a < pre.len() implies (#[trigger] pre[a]).0.value
                    < e.0.value by {
                    assert(pre[a] == self@[a]);
                }
                lemma_lookup_push(pre, e);
                assert(e.0.space == range.spec_space());
            }
            if lo <= e.0.value && e.0.value <= hi {
                proof {
                    assert forall|a: int| 0 <= a < out0.len() implies (#[trigger] out0[a]).0.value
                        < e.0.value by {
                        let j = choose|j: int| 0 <= j < i && #[trigger] out0[a] == self@[j];
                        assert(self@[j].0.value < self@[i as int].0.value);
                    }
                    lemma_lookup_push(out0, e);
                    assert(range.spec_contains(e.0));
                }
                out.push(e);
                proof {
                    assert forall|a: int| 0 <= a < out@.len() implies exists|j: int|
                        0 <= j < i + 1 && #[trigger] out@[a] == self@[j] by {
                        if a < out0.len() {
                            let j = choose|j: int| 0 <= j < i && #[trigger] out0[a] == self@[j];
                            assert(out@[a] == self@[j]);
                        } else {
                            assert(out@[a] == self@[i as int]);
                        }
                    }
                }
            } else {
                proof {
                    assert(!range.spec_contains(e.0));
                }
            }
            i = i + 1;
        }
        proof {
            assert(self@.subrange(0, n as int) =~= self@);
        }
        out
    }

    /// Gets an iterable snapshot of all entries, ascending by packet number.
    pub fn iter(&self) -> (r: Vec<Entry>)
        ensures
            r@ == self@,
    {
        let mut out: Vec<Entry> = Vec::new();
        let n = self.sent_packets.len();
        let mut i: usize = 0;
        while i < n
            invariant
                n == self.sent_packets.len(),
                i <= n,
                out@ == self@.subrange(0, i as int),
            decreases n - i,
        {
            out.push(self.sent_packets[i]);
            proof {
                assert(out@ =~= self@.subrange(0, i + 1 as int));
            }
            i = i + 1;
        }
        proof {
            assert(self@.subrange(0, n as int) =~= self@);
        }
        out
    }
}

} // verus!
