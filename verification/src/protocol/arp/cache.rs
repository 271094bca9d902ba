use vstd::prelude::*;

use crate::protocol::ethernet::MacAddr;
use crate::protocol::ipv4::addr::Ipv4Addr;

verus! {

/// How long a cache entry stays valid after its last update, in seconds.
pub const CACHE_TIMEOUT: u64 = 30;

/// One cached resolution: an IPv4 address and, once known, its hardware
/// address.
#[derive(Debug, Clone, Copy, PartialEq, Eq, Structural)]
pub struct ArpEntry {
    pub protocol: Ipv4Addr,
    pub hardware: Option<MacAddr>,
    pub updated_at: u64,
}

/// The entry is still valid at `now`.
pub open spec fn arp_entry_fresh(e: ArpEntry, now: u64) -> bool {
    now.saturating_sub(e.updated_at) <= CACHE_TIMEOUT
}

/// The entries still valid at `now`, in order.
pub open spec fn arp_expire(entries: Seq<ArpEntry>, now: u64) -> Seq<ArpEntry>
    decreases entries.len(),
{
    if entries.len() == 0 {
        entries
    } else {
        let rest = arp_expire(entries.drop_first(), now);
        if arp_entry_fresh(entries[0], now) {
            seq![entries[0]] + rest
        } else {
            rest
        }
    }
}

/// The first entry for `protocol`, if any.
pub open spec fn arp_lookup(entries: Seq<ArpEntry>, protocol: Ipv4Addr) -> Option<ArpEntry>
    decreases entries.len(),
{
    if entries.len() == 0 {
        None
    } else if entries[0].protocol == protocol {
        Some(entries[0])
    } else {
        arp_lookup(entries.drop_first(), protocol)
    }
}

/// The entries with the first entry for `protocol` given `hardware` and
/// stamped `now`.
pub open spec fn arp_update(entries: Seq<ArpEntry>, protocol: Ipv4Addr, hardware: MacAddr, now: u64) -> Seq<
    ArpEntry,
>
    decreases entries.len(),
{
    if entries.len() == 0 {
        entries
    } else if entries[0].protocol == protocol {
        seq![ArpEntry { hardware: Some(hardware), updated_at: now, ..entries[0] }]
            + entries.drop_first()
    } else {
        seq![entries[0]] + arp_update(entries.drop_first(), protocol, hardware, now)
    }
}

/// `i` is the index of the first entry for `protocol`.
pub open spec fn arp_first_index(entries: Seq<ArpEntry>, protocol: Ipv4Addr, i: int) -> bool {
    &&& 0 <= i < entries.len()
    &&& entries[i].protocol == protocol
    &&& forall|j: int| 0 <= j < i ==> entries[j].protocol != protocol
}

/// The hardware address a lookup yields: none for an unknown or incomplete entry.
pub open spec fn arp_hardware(entry: Option<ArpEntry>) -> Option<MacAddr> {
    match entry {
        Some(e) => e.hardware,
        None => None,
    }
}

proof fn lemma_first_index(entries: Seq<ArpEntry>, protocol: Ipv4Addr, i: int, hardware: MacAddr, now: u64)
    requires
        arp_first_index(entries, protocol, i),
    ensures
        arp_lookup(entries, protocol) == Some(entries[i]),
        arp_update(entries, protocol, hardware, now) == entries.update(
            i,
            ArpEntry { hardware: Some(hardware), updated_at: now, ..entries[i] },
        ),
    decreases i,
{
    if i > 0 {
        let rest = entries.drop_first();
        assert(arp_first_index(rest, protocol, i - 1)) by {
            assert forall|j: int| 0 <= j < i - 1 implies rest[j].protocol != protocol by {
                assert(rest[j] == entries[j + 1]);
            }
        }
        lemma_first_index(rest, protocol, i - 1, hardware, now);
        assert(entries[0].protocol != protocol);
        assert(arp_update(entries, protocol, hardware, now) =~= entries.update(
            i,
            ArpEntry { hardware: Some(hardware), updated_at: now, ..entries[i] },
        ));
    } else {
        assert(arp_update(entries, protocol, hardware, now) =~= entries.update(
            0,
            ArpEntry { hardware: Some(hardware), updated_at: now, ..entries[0] },
        ));
    }
}

proof fn lemma_no_index(entries: Seq<ArpEntry>, protocol: Ipv4Addr, hardware: MacAddr, now: u64)
    requires
        forall|j: int| 0 <= j < entries.len() ==> entries[j].protocol != protocol,
    ensures
        arp_lookup(entries, protocol) is None,
        arp_update(entries, protocol, hardware, now) == entries,
    decreases entries.len(),
{
    if entries.len() > 0 {
        let rest = entries.drop_first();
        assert forall|j: int| 0 <= j < rest.len() implies rest[j].protocol != protocol by {
            assert(rest[j] == entries[j + 1]);
        }
        lemma_no_index(rest, protocol, hardware, now);
        assert(seq![entries[0]] + rest =~= entries);
    }
}

/// The resolutions of one interface's neighbours, oldest first.
#[derive(Debug)]
pub struct Entries {
    entries: Vec<ArpEntry>,
}

impl View for Entries {
    type V = Seq<ArpEntry>;

    closed spec fn view(&self) -> Seq<ArpEntry> {
        self.entries@
    }
}

impl Entries {
    pub fn new() -> (r: Entries)
        ensures
            r@ == Seq::<ArpEntry>::empty(),
    {
        Entries { entries: Vec::new() }
    }

    /// Drops the entries that are no longer valid at `now`.
    pub fn expire(&mut self, now: u64)
        ensures
            final(self)@ == arp_expire(old(self)@, now),
    {
        let n = self.entries.len();
        let ghost start = self@;
        let mut kept: Vec<ArpEntry> = Vec::new();
        let mut i: usize = 0;
        assert(start.subrange(0, n as int) =~= start);
        while i < n
            invariant
                n == start.len(),
                self@ == start,
                i <= n,
                kept@ + arp_expire(start.subrange(i as int, n as int), now) == arp_expire(start, now),
            decreases n - i,
        {
            let entry = self.entries[i];
            let ghost tail = start.subrange(i as int, n as int);
            assert(tail.drop_first() =~= start.subrange(i as int + 1, n as int));
            assert(tail[0] == entry);
            let ghost before = kept@;
            if now.saturating_sub(entry.updated_at) <= CACHE_TIMEOUT {
                kept.push(entry);
                assert(kept@ + arp_expire(start.subrange(i as int + 1, n as int), now) =~= before
                    + arp_expire(tail, now));
            }
            i = i + 1;
        }
        assert(start.subrange(n as int, n as int).len() == 0);
        assert(kept@ =~= kept@ + arp_expire(start.subrange(n as int, n as int), now));
        self.entries = kept;
    }

    /// The index of the first entry for `protocol`, if any.
    pub fn find(&self, protocol: Ipv4Addr) -> (r: Option<usize>)
        ensures
            match r {
                Some(i) => arp_first_index(self@, protocol, i as int),
                None => forall|j: int| 0 <= j < self@.len() ==> self@[j].protocol != protocol,
            },
    {
        let mut i: usize = 0;
        while i < self.entries.len()
            invariant
                i <= self@.len(),
                forall|j: int| 0 <= j < i ==> self@[j].protocol != protocol,
            decreases self@.len() - i,
        {
            if self.entries[i].protocol == protocol {
                return Some(i);
            }
            i = i + 1;
        }
        None
    }

    /// Records `hardware` for `protocol` at `now`, when an entry for it
    /// exists; says whether one did.
    pub fn update(&mut self, protocol: Ipv4Addr, hardware: MacAddr, now: u64) -> (r: bool)
        ensures
            r == arp_lookup(old(self)@, protocol) is Some,
            final(self)@ == arp_update(old(self)@, protocol, hardware, now),
    {
        match self.find(protocol) {
            Some(index) => {
                proof {
                    lemma_first_index(self@, protocol, index as int, hardware, now);
                }
                let entry = self.entries[index];
                self.entries.set(
                    index,
                    ArpEntry { protocol: entry.protocol, hardware: Some(hardware), updated_at: now },
                );
                true
            },
            None => {
                proof {
                    lemma_no_index(self@, protocol, hardware, now);
                }
                false
            },
        }
    }

    /// Adds an entry for `protocol` whose hardware address is not known
    /// yet, unless `protocol` has an entry.
    pub fn insert_incomplete(&mut self, protocol: Ipv4Addr, now: u64)
        ensures
            final(self)@ == if arp_lookup(old(self)@, protocol) is Some {
                old(self)@
            } else {
                old(self)@.push(ArpEntry { protocol, hardware: None, updated_at: now })
            },
    {
        match self.find(protocol) {
            Some(index) => {
                proof {
                    lemma_first_index(self@, protocol, index as int, arbitrary::<MacAddr>(), now);
                }
            },
            None => {
                proof {
                    lemma_no_index(self@, protocol, arbitrary::<MacAddr>(), now);
                }
                self.entries.push(ArpEntry { protocol, hardware: None, updated_at: now });
            },
        }
    }

    /// Adds an entry for `protocol` with `hardware`.
    pub fn insert(&mut self, protocol: Ipv4Addr, hardware: MacAddr, now: u64)
        ensures
            final(self)@ == old(self)@.push(
                ArpEntry { protocol, hardware: Some(hardware), updated_at: now },
            ),
    {
        self.entries.push(ArpEntry { protocol, hardware: Some(hardware), updated_at: now });
    }

    /// Drops what is no longer valid at `now`, then gives the hardware
    /// address of the first entry for `protocol`, if it is known.
    pub fn resolve(&mut self, protocol: Ipv4Addr, now: u64) -> (r: Option<MacAddr>)
        ensures
            final(self)@ == arp_expire(old(self)@, now),
            r == arp_hardware(arp_lookup(final(self)@, protocol)),
    {
        self.expire(now);
        match self.find(protocol) {
            Some(index) => {
                proof {
                    lemma_first_index(self@, protocol, index as int, arbitrary::<MacAddr>(), now);
                }
                self.entries[index].hardware
            },
            None => {
                proof {
                    lemma_no_index(self@, protocol, arbitrary::<MacAddr>(), now);
                }
                None
            },
        }
    }
}

/// The ARP cache: every operation first drops what is no longer valid.
#[derive(Debug)]
pub struct ArpCache {
    entries: Entries,
}

impl View for ArpCache {
    type V = Seq<ArpEntry>;

    closed spec fn view(&self) -> Seq<ArpEntry> {
        self.entries@
    }
}

impl ArpCache {
    pub fn new() -> (r: ArpCache)
        ensures
            r@ == Seq::<ArpEntry>::empty(),
    {
        ArpCache { entries: Entries::new() }
    }

    /// The hardware address known for `protocol` at `now`, if any.
    pub fn resolve(&mut self, protocol: Ipv4Addr, now: u64) -> (r: Option<MacAddr>)
        ensures
            final(self)@ == arp_expire(old(self)@, now),
            r == arp_hardware(arp_lookup(final(self)@, protocol)),
    {
        self.entries.resolve(protocol, now)
    }

    /// Records `hardware` for `protocol` at `now` when `protocol` has a
    /// valid entry; says whether it had.
    pub fn update(&mut self, protocol: Ipv4Addr, hardware: MacAddr, now: u64) -> (r: bool)
        ensures
            r == arp_lookup(arp_expire(old(self)@, now), protocol) is Some,
            final(self)@ == arp_update(arp_expire(old(self)@, now), protocol, hardware, now),
    {
        self.entries.expire(now);
        self.entries.update(protocol, hardware, now)
    }

    /// Adds a resolution of `protocol` to `hardware` at `now`.
    pub fn insert(&mut self, protocol: Ipv4Addr, hardware: MacAddr, now: u64)
        ensures
            final(self)@ == arp_expire(old(self)@, now).push(
                ArpEntry { protocol, hardware: Some(hardware), updated_at: now },
            ),
    {
        self.entries.expire(now);
        self.entries.insert(protocol, hardware, now);
    }

    /// Adds an entry for `protocol` awaiting its hardware address, unless
    /// `protocol` has a valid entry.
    pub fn insert_incomplete(&mut self, protocol: Ipv4Addr, now: u64)
        ensures
            final(self)@ == if arp_lookup(arp_expire(old(self)@, now), protocol) is Some {
                arp_expire(old(self)@, now)
            } else {
                arp_expire(old(self)@, now).push(
                    ArpEntry { protocol, hardware: None, updated_at: now },
                )
            },
    {
        self.entries.expire(now);
        self.entries.insert_incomplete(protocol, now);
    }
}

impl Default for ArpCache {
    fn default() -> (r: ArpCache)
        ensures
            r@ == Seq::<ArpEntry>::empty(),
    {
        ArpCache::new()
    }
}

/// A lookup finds an entry added after every other entry for its
/// address, as long as the entry is still valid.
pub proof fn lemma_lookup_appended(entries: Seq<ArpEntry>, entry: ArpEntry, now: u64)
    requires
        arp_lookup(entries, entry.protocol) is None,
    ensures
        arp_lookup(arp_expire(entries.push(entry), now), entry.protocol) == if arp_entry_fresh(
            entry,
            now,
        ) {
            Some(entry)
        } else {
            None::<ArpEntry>
        },
    decreases entries.len(),
{
    let all = entries.push(entry);
    if entries.len() == 0 {
        assert(all.drop_first() =~= Seq::<ArpEntry>::empty());
        let rest = arp_expire(all.drop_first(), now);
        assert(rest.len() == 0);
        assert((seq![entry] + rest)[0] == entry);
    } else {
        let e0 = entries[0];
        assert(e0.protocol != entry.protocol);
        assert(all.drop_first() =~= entries.drop_first().push(entry));
        lemma_lookup_appended(entries.drop_first(), entry, now);
        assert(all[0] == e0);
        let rest = arp_expire(all.drop_first(), now);
        assert((seq![e0] + rest).drop_first() =~= rest);
        assert((seq![e0] + rest)[0] == e0);
    }
}

/// An updated entry resolves to the hardware address it was given, while
/// it stays valid.
pub proof fn lemma_update_then_resolve(
    entries: Seq<ArpEntry>,
    protocol: Ipv4Addr,
    hardware: MacAddr,
    now: u64,
    later: u64,
)
    requires
        arp_lookup(entries, protocol) is Some,
        later.saturating_sub(now) <= CACHE_TIMEOUT,
    ensures
        arp_hardware(arp_lookup(arp_expire(arp_update(entries, protocol, hardware, now), later), protocol))
            == Some(hardware),
    decreases entries.len(),
{
    let u = arp_update(entries, protocol, hardware, now);
    let e0 = entries[0];
    if e0.protocol == protocol {
        let e1 = ArpEntry { hardware: Some(hardware), updated_at: now, ..e0 };
        assert(u.drop_first() =~= entries.drop_first());
        assert(u[0] == e1);
        let rest = arp_expire(u.drop_first(), later);
        assert((seq![e1] + rest)[0] == e1);
    } else {
        lemma_update_then_resolve(entries.drop_first(), protocol, hardware, now, later);
        assert(u.drop_first() =~= arp_update(entries.drop_first(), protocol, hardware, now));
        assert(u[0] == e0);
        let rest = arp_expire(u.drop_first(), later);
        assert((seq![e0] + rest).drop_first() =~= rest);
        assert((seq![e0] + rest)[0] == e0);
    }
}

/// An entry added without a hardware address does not resolve.
pub proof fn lemma_incomplete_entry_does_not_resolve(
    entries: Seq<ArpEntry>,
    protocol: Ipv4Addr,
    now: u64,
    later: u64,
)
    requires
        arp_lookup(entries, protocol) is None,
    ensures
        arp_hardware(
            arp_lookup(
                arp_expire(entries.push(ArpEntry { protocol, hardware: None, updated_at: now }), later),
                protocol,
            ),
        ) is None,
{
    lemma_lookup_appended(entries, ArpEntry { protocol, hardware: None, updated_at: now }, later);
}

/// A resolution inserted for an address without an entry is what a lookup
/// gives back while it stays valid.
pub proof fn lemma_insert_then_resolve(
    entries: Seq<ArpEntry>,
    protocol: Ipv4Addr,
    hardware: MacAddr,
    now: u64,
    later: u64,
)
    requires
        arp_lookup(entries, protocol) is None,
        later.saturating_sub(now) <= CACHE_TIMEOUT,
    ensures
        arp_hardware(
            arp_lookup(
                arp_expire(
                    entries.push(ArpEntry { protocol, hardware: Some(hardware), updated_at: now }),
                    later,
                ),
                protocol,
            ),
        ) == Some(hardware),
{
    lemma_lookup_appended(entries, ArpEntry { protocol, hardware: Some(hardware), updated_at: now }, later);
}

/// The cache's request cycle: an address with no valid entry that gets an
/// incomplete entry does not resolve; an update within the timeout finds
/// that entry, and from then on the address resolves to the hardware
/// address of the update while it stays valid.
pub proof fn lemma_incomplete_entry_resolved_by_update(
    entries: Seq<ArpEntry>,
    protocol: Ipv4Addr,
    hardware: MacAddr,
    asked: u64,
    answered: u64,
    later: u64,
)
    requires
        arp_lookup(arp_expire(entries, asked), protocol) is None,
        asked <= answered,
        answered - asked <= CACHE_TIMEOUT,
        later.saturating_sub(answered) <= CACHE_TIMEOUT,
    ensures
        ({
            let waiting = arp_expire(entries, asked).push(
                ArpEntry { protocol, hardware: None, updated_at: asked },
            );
            let current = arp_expire(waiting, answered);
            &&& arp_hardware(arp_lookup(arp_expire(waiting, asked), protocol)) is None
            &&& arp_lookup(current, protocol) is Some
            &&& arp_hardware(
                arp_lookup(arp_expire(arp_update(current, protocol, hardware, answered), later), protocol),
            ) == Some(hardware)
        }),
{
    let valid = arp_expire(entries, asked);
    let entry = ArpEntry { protocol, hardware: None, updated_at: asked };
    lemma_incomplete_entry_does_not_resolve(valid, protocol, asked, asked);
    lemma_lookup_appended(valid, entry, answered);
    lemma_update_then_resolve(arp_expire(valid.push(entry), answered), protocol, hardware, answered, later);
}

} // verus!
