use std::collections::VecDeque;
use vstd::prelude::*;

use crate::protocol::ipv4::addr::Ipv4Endpoint;
use crate::protocol::tcp::header::{TcpFlags, TCP_FIN, TCP_SYN};
use crate::protocol::wire::copy_range;

verus! {

/// The first retransmission timeout, in microseconds.
pub const RETRANS_RTO: u64 = 200_000;

/// How long a segment may wait for its acknowledgment before the
/// connection is given up, in microseconds.
pub const RETRANS_DEADLINE: u64 = 12_000_000;

/// A segment kept for retransmission until it is acknowledged.
#[derive(Debug)]
pub struct Retrans {
    pub local: Ipv4Endpoint,
    pub remote: Ipv4Endpoint,
    pub seq: u32,
    pub ack: u32,
    pub flags: TcpFlags,
    pub window: u16,
    pub payload: Vec<u8>,
    first_sent: u64,
    last_sent: u64,
    rto: u64,
}

/// What a [`Retrans`] holds.
pub struct RetransView {
    pub local: Ipv4Endpoint,
    pub remote: Ipv4Endpoint,
    pub seq: u32,
    pub ack: u32,
    pub flags: u8,
    pub window: u16,
    pub payload: Seq<u8>,
    pub first_sent: u64,
    pub last_sent: u64,
    pub rto: u64,
}

impl View for Retrans {
    type V = RetransView;

    closed spec fn view(&self) -> RetransView {
        RetransView {
            local: self.local,
            remote: self.remote,
            seq: self.seq,
            ack: self.ack,
            flags: self.flags@,
            window: self.window,
            payload: self.payload@,
            first_sent: self.first_sent,
            last_sent: self.last_sent,
            rto: self.rto,
        }
    }
}

/// The connection details that every retransmitted segment is sent with.
#[derive(Debug, Clone, Copy, PartialEq, Eq, Structural)]
pub struct RetransInfo {
    pub local: Ipv4Endpoint,
    pub remote: Ipv4Endpoint,
    pub ack: u32,
    pub window: u16,
}

/// The segments that are due, or that the connection has timed out.
#[derive(Debug)]
pub struct DueRetrans {
    pub entries: Vec<Retrans>,
    pub expired: bool,
}

/// The queue of unacknowledged segments of one connection.
#[derive(Debug)]
pub struct RetransQueue {
    entries: VecDeque<Retrans>,
}

impl View for RetransQueue {
    type V = Seq<RetransView>;

    closed spec fn view(&self) -> Seq<RetransView> {
        self.entries@.map_values(|e: Retrans| e@)
    }
}

/// The entry that [`RetransQueue::enqueue`] adds.
pub open spec fn retrans_new(
    seq: u32,
    flags: u8,
    payload: Seq<u8>,
    timestamp: u64,
    info: RetransInfo,
) -> RetransView {
    RetransView {
        local: info.local,
        remote: info.remote,
        seq,
        ack: info.ack,
        flags,
        window: info.window,
        payload,
        first_sent: timestamp,
        last_sent: timestamp,
        rto: RETRANS_RTO,
    }
}

/// The sequence number just past what the entry occupies: its payload, and
/// one more for a SYN or a FIN.
pub open spec fn retrans_end(e: RetransView) -> u32 {
    e.seq.wrapping_add(
        (e.payload.len() as u32).wrapping_add(if e.flags & (TCP_SYN | TCP_FIN) != 0 { 1u32 } else { 0u32 }),
    )
}

/// The queue without the leading entries that `snd_una` acknowledges in full.
pub open spec fn retrans_cleanup(entries: Seq<RetransView>, snd_una: u32) -> Seq<RetransView>
    decreases entries.len(),
{
    if entries.len() == 0 {
        entries
    } else if snd_una < retrans_end(entries[0]) {
        entries
    } else {
        retrans_cleanup(entries.drop_first(), snd_una)
    }
}

/// The entry has waited a full timeout since it was last sent.
pub open spec fn retrans_is_due(e: RetransView, timestamp: u64) -> bool {
    timestamp.saturating_sub(e.last_sent) >= e.rto
}

/// The entry has waited longer than the deadline since it was first sent.
pub open spec fn retrans_is_expired(e: RetransView, timestamp: u64) -> bool {
    timestamp.saturating_sub(e.first_sent) > RETRANS_DEADLINE
}

/// `rto` doubled, saturating at `u64::MAX`.
pub open spec fn double_rto(rto: u64) -> u64 {
    if rto * 2 > u64::MAX {
        u64::MAX
    } else {
        (rto * 2) as u64
    }
}

/// A due entry as it is sent again: now, with a doubled timeout and the
/// connection's current details.
pub open spec fn retrans_refresh(e: RetransView, timestamp: u64, info: RetransInfo) -> RetransView {
    RetransView {
        local: info.local,
        remote: info.remote,
        ack: info.ack,
        window: info.window,
        last_sent: timestamp,
        rto: double_rto(e.rto),
        ..e
    }
}

/// The entry after a scan at `timestamp`.
pub open spec fn retrans_step(e: RetransView, timestamp: u64, info: RetransInfo) -> RetransView {
    if retrans_is_due(e, timestamp) {
        retrans_refresh(e, timestamp, info)
    } else {
        e
    }
}

/// The refreshed due entries, in queue order.
pub open spec fn retrans_due_entries(entries: Seq<RetransView>, timestamp: u64, info: RetransInfo) -> Seq<
    RetransView,
>
    decreases entries.len(),
{
    if entries.len() == 0 {
        seq![]
    } else {
        let rest = retrans_due_entries(entries.drop_last(), timestamp, info);
        if retrans_is_due(entries.last(), timestamp) {
            rest.push(retrans_refresh(entries.last(), timestamp, info))
        } else {
            rest
        }
    }
}

/// Some entry of the queue has passed the deadline.
pub open spec fn retrans_any_expired(entries: Seq<RetransView>, timestamp: u64) -> bool {
    exists|i: int| 0 <= i < entries.len() && #[trigger] retrans_is_expired(entries[i], timestamp)
}

impl Retrans {
    /// A copy of the entry.
    pub fn duplicate(&self) -> (r: Retrans)
        ensures
            r@ == self@,
    {
        assert(self.payload@.subrange(0, self.payload@.len() as int) =~= self.payload@);
        Retrans {
            local: self.local,
            remote: self.remote,
            seq: self.seq,
            ack: self.ack,
            flags: self.flags,
            window: self.window,
            payload: copy_range(self.payload.as_slice(), 0, self.payload.len()),
            first_sent: self.first_sent,
            last_sent: self.last_sent,
            rto: self.rto,
        }
    }

    pub fn local(&self) -> (r: Ipv4Endpoint)
        ensures
            r == self@.local,
    {
        self.local
    }

    pub fn remote(&self) -> (r: Ipv4Endpoint)
        ensures
            r == self@.remote,
    {
        self.remote
    }

    pub fn seq(&self) -> (r: u32)
        ensures
            r == self@.seq,
    {
        self.seq
    }

    pub fn ack(&self) -> (r: u32)
        ensures
            r == self@.ack,
    {
        self.ack
    }

    pub fn flags(&self) -> (r: TcpFlags)
        ensures
            r@ == self@.flags,
    {
        self.flags
    }

    pub fn window(&self) -> (r: u16)
        ensures
            r == self@.window,
    {
        self.window
    }

    pub fn payload(&self) -> (r: &[u8])
        ensures
            r@ == self@.payload,
    {
        self.payload.as_slice()
    }

    /// When the entry was first sent, in microseconds.
    pub fn first_sent(&self) -> (r: u64)
        ensures
            r == self@.first_sent,
    {
        self.first_sent
    }

    /// When the entry was last sent, in microseconds.
    pub fn last_sent(&self) -> (r: u64)
        ensures
            r == self@.last_sent,
    {
        self.last_sent
    }

    /// The current retransmission timeout, in microseconds.
    pub fn rto(&self) -> (r: u64)
        ensures
            r == self@.rto,
    {
        self.rto
    }
}

proof fn lemma_due_entries_push(entries: Seq<RetransView>, e: RetransView, timestamp: u64, info: RetransInfo)
    ensures
        retrans_due_entries(entries.push(e), timestamp, info) == if retrans_is_due(e, timestamp) {
            retrans_due_entries(entries, timestamp, info).push(retrans_refresh(e, timestamp, info))
        } else {
            retrans_due_entries(entries, timestamp, info)
        },
{
    assert(entries.push(e).drop_last() =~= entries);
}

impl RetransQueue {
    pub fn new() -> (r: RetransQueue)
        ensures
            r@ == Seq::<RetransView>::empty(),
    {
        let r = RetransQueue { entries: VecDeque::new() };
        assert(r@ =~= Seq::<RetransView>::empty());
        r
    }

    /// A copy of the queue.
    pub fn duplicate(&self) -> (r: RetransQueue)
        ensures
            r@ == self@,
    {
        let mut entries: VecDeque<Retrans> = VecDeque::new();
        let mut i: usize = 0;
        while i < self.entries.len()
            invariant
                i <= self@.len(),
                entries@.map_values(|e: Retrans| e@) == self@.subrange(0, i as int),
            decreases self@.len() - i,
        {
            let ghost before = entries@;
            let e = self.entries[i].duplicate();
            assert(e@ == self@[i as int]);
            let ghost ev = e@;
            entries.push_back(e);
            proof {
                assert(entries@.map_values(|e: Retrans| e@) =~= before.map_values(|e: Retrans| e@).push(ev));
                assert(self@.subrange(0, i as int + 1) =~= self@.subrange(0, i as int).push(ev));
            }
            i = i + 1;
        }
        let r = RetransQueue { entries };
        assert(r@ =~= self@);
        r
    }

    /// The number of queued segments.
    pub fn len(&self) -> (r: usize)
        ensures
            r == self@.len(),
    {
        self.entries.len()
    }

    /// Queues a segment sent at `timestamp`.
    pub fn enqueue(&mut self, seq: u32, flags: TcpFlags, payload: &[u8], timestamp: u64, info: RetransInfo)
        ensures
            final(self)@ == old(self)@.push(retrans_new(seq, flags@, payload@, timestamp, info)),
    {
        let entry = Retrans {
            local: info.local,
            remote: info.remote,
            seq,
            ack: info.ack,
            flags,
            window: info.window,
            payload: copy_range(payload, 0, payload.len()),
            first_sent: timestamp,
            last_sent: timestamp,
            rto: RETRANS_RTO,
        };
        assert(payload@.subrange(0, payload@.len() as int) =~= payload@);
        assert(entry@ == retrans_new(seq, flags@, payload@, timestamp, info));
        let ghost before = self.entries@;
        self.entries.push_back(entry);
        assert(self.entries@ == before.push(entry));
        assert(self@ =~= old(self)@.push(retrans_new(seq, flags@, payload@, timestamp, info)));
    }

    /// The segments due at `timestamp`, sent again with the connection's
    /// current details; or, when some segment has passed the deadline,
    /// nothing, and word that the connection has timed out.
    pub fn due(&mut self, timestamp: u64, info: RetransInfo) -> (r: DueRetrans)
        ensures
            retrans_any_expired(old(self)@, timestamp) ==> {
                &&& r.expired
                &&& r.entries@.len() == 0
                &&& final(self)@ == old(self)@
            },
            !retrans_any_expired(old(self)@, timestamp) ==> {
                &&& !r.expired
                &&& r.entries@.map_values(|e: Retrans| e@) == retrans_due_entries(
                    old(self)@,
                    timestamp,
                    info,
                )
                &&& final(self)@ == old(self)@.map_values(
                    |e: RetransView| retrans_step(e, timestamp, info),
                )
            },
    {
        let n = self.entries.len();
        let mut i: usize = 0;
        while i < n
            invariant
                n == self@.len(),
                i <= n,
                forall|j: int| 0 <= j < i ==> !retrans_is_expired(#[trigger] self@[j], timestamp),
            decreases n - i,
        {
            let first_sent = self.entries[i].first_sent;
            if timestamp.saturating_sub(first_sent) > RETRANS_DEADLINE {
                proof {
                    assert(retrans_is_expired(self@[i as int], timestamp));
                }
                return DueRetrans { entries: Vec::new(), expired: true };
            }
            i = i + 1;
        }
        let ghost start = self@;
        let mut out: Vec<Retrans> = Vec::new();
        let mut k: usize = 0;
        while k < n
            invariant
                n == start.len(),
                k <= n,
                self@ == start.subrange(k as int, n as int) + start.subrange(0, k as int).map_values(
                    |e: RetransView| retrans_step(e, timestamp, info),
                ),
                out@.map_values(|e: Retrans| e@) == retrans_due_entries(
                    start.subrange(0, k as int),
                    timestamp,
                    info,
                ),
            decreases n - k,
        {
            let ghost before = self@;
            let ghost outs = out@.map_values(|e: Retrans| e@);
            let ghost done = start.subrange(0, k as int).map_values(
                |e: RetransView| retrans_step(e, timestamp, info),
            );
            let ghost stepped = retrans_step(start[k as int], timestamp, info);
            assert(before.len() == n);
            assert(self.entries@.len() == n);
            let popped = self.entries.pop_front();
            let mut entry = match popped {
                Some(e) => e,
                None => {
                    return DueRetrans { entries: out, expired: false };
                },
            };
            assert(entry@ == start[k as int]) by {
                assert(before[0] == start.subrange(k as int, n as int)[0]);
            }
            proof {
                lemma_due_entries_push(start.subrange(0, k as int), start[k as int], timestamp, info);
                assert(start.subrange(0, k as int + 1) =~= start.subrange(0, k as int).push(start[k as int]));
            }
            if timestamp.saturating_sub(entry.last_sent) >= entry.rto {
                entry.last_sent = timestamp;
                entry.rto = if entry.rto > u64::MAX / 2 {
                    u64::MAX
                } else {
                    entry.rto * 2
                };
                entry.local = info.local;
                entry.remote = info.remote;
                entry.ack = info.ack;
                entry.window = info.window;
                out.push(entry.duplicate());
                assert(out@.map_values(|e: Retrans| e@) =~= outs.push(entry@));
            }
            assert(entry@ == stepped);
            let ghost rest = self.entries@;
            self.entries.push_back(entry);
            proof {
                assert(rest.map_values(|e: Retrans| e@) =~= before.drop_first());
                assert(before.drop_first() =~= start.subrange(k as int + 1, n as int) + done);
                assert(self.entries@ == rest.push(entry));
                assert(self@ =~= before.drop_first().push(stepped));
                assert(start.subrange(0, k as int + 1).map_values(
                    |e: RetransView| retrans_step(e, timestamp, info),
                ) =~= done.push(stepped));
            }
            assert(self@ =~= start.subrange(k as int + 1, n as int) + start.subrange(
                0,
                k as int + 1,
            ).map_values(|e: RetransView| retrans_step(e, timestamp, info)));
            k = k + 1;
        }
        assert(start.subrange(0, n as int) =~= start);
        assert(self@ =~= start.map_values(|e: RetransView| retrans_step(e, timestamp, info)));
        DueRetrans { entries: out, expired: false }
    }

    /// Drops the leading segments that `snd_una` acknowledges in full.
    pub fn cleanup(&mut self, snd_una: u32)
        ensures
            final(self)@ == retrans_cleanup(old(self)@, snd_una),
    {
        while self.entries.len() > 0
            invariant
                retrans_cleanup(self@, snd_una) == retrans_cleanup(old(self)@, snd_una),
            decreases self@.len(),
        {
            let front = &self.entries[0];
            let consumed: u32 = (front.payload.len() as u32).wrapping_add(
                if front.flags.intersects(TcpFlags::syn().union(TcpFlags::fin())) {
                    1u32
                } else {
                    0u32
                },
            );
            proof {
                assert(self@[0] == front@);
            }
            if snd_una < front.seq.wrapping_add(consumed) {
                return;
            }
            let ghost before = self@;
            let _ = self.entries.pop_front();
            assert(self@ =~= before.drop_first());
        }
    }
}

/// Cleanup drops only a prefix of the queue, every dropped segment is
/// acknowledged in full, and the first segment that stays is not.
pub proof fn lemma_cleanup_drops_acknowledged_prefix(entries: Seq<RetransView>, snd_una: u32)
    ensures
        ({
            let kept = retrans_cleanup(entries, snd_una);
            let dropped = entries.len() - kept.len();
            &&& kept.len() <= entries.len()
            &&& kept == entries.subrange(dropped, entries.len() as int)
            &&& forall|i: int| 0 <= i < dropped ==> snd_una >= #[trigger] retrans_end(entries[i])
            &&& kept.len() > 0 ==> snd_una < retrans_end(kept[0])
        }),
    decreases entries.len(),
{
    if entries.len() == 0 {
        assert(entries.subrange(0, 0) =~= entries);
    } else if snd_una < retrans_end(entries[0]) {
        assert(entries.subrange(0, entries.len() as int) =~= entries);
    } else {
        let rest = entries.drop_first();
        lemma_cleanup_drops_acknowledged_prefix(rest, snd_una);
        let kept = retrans_cleanup(rest, snd_una);
        let dropped = rest.len() - kept.len();
        assert(rest.subrange(dropped, rest.len() as int) =~= entries.subrange(
            dropped + 1,
            entries.len() as int,
        ));
        assert forall|i: int| 0 <= i < dropped + 1 implies snd_una >= #[trigger] retrans_end(
            entries[i],
        ) by {
            if i > 0 {
                assert(entries[i] == rest[i - 1]);
            }
        }
    }
}

} // verus!
