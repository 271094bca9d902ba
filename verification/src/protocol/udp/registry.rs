use std::collections::VecDeque;
use vstd::prelude::*;

use crate::protocol::ipv4::addr::{is_any, Ipv4Addr, Ipv4Endpoint};
use crate::slots::{
    canonical_key, slot_entries, slots_get, slots_insert, slots_keys, slots_new, slots_remove,
    slots_replace, lemma_canonical_idempotent, RegistryEntry, Slots,
};

verus! {

/// The lowest port handed out as an ephemeral port.
pub const DYNAMIC_PORT_MIN: u16 = 49152;

/// The highest port handed out as an ephemeral port.
pub const DYNAMIC_PORT_MAX: u16 = 65535;

/// Stable key for a UDP PCB owned by a [`UdpPcbRegistry`].
#[derive(Debug, Clone, Copy, PartialEq, Eq, Hash, Structural)]
pub struct UdpPcbKey {
    id: u64,
}

impl View for UdpPcbKey {
    type V = u64;

    closed spec fn view(&self) -> u64 {
        self.id
    }
}

impl UdpPcbKey {
    pub(crate) fn from_id(id: u64) -> (r: UdpPcbKey)
        ensures
            r@ == id,
    {
        UdpPcbKey { id }
    }

    /// The number that identifies this key within its registry.
    pub fn id(&self) -> (r: u64)
        ensures
            r == self@,
    {
        self.id
    }
}

/// A datagram waiting to be read, with the endpoint it came from.
#[derive(Debug, Clone, PartialEq, Eq)]
pub struct ReceivedDatagram {
    remote: Ipv4Endpoint,
    payload: Vec<u8>,
}

/// What a [`ReceivedDatagram`] holds.
pub struct ReceivedDatagramView {
    pub remote: Ipv4Endpoint,
    pub payload: Seq<u8>,
}

impl View for ReceivedDatagram {
    type V = ReceivedDatagramView;

    closed spec fn view(&self) -> ReceivedDatagramView {
        ReceivedDatagramView { remote: self.remote, payload: self.payload@ }
    }
}

impl ReceivedDatagram {
    pub fn new(remote: Ipv4Endpoint, payload: Vec<u8>) -> (r: ReceivedDatagram)
        ensures
            r@ == (ReceivedDatagramView { remote, payload: payload@ }),
    {
        ReceivedDatagram { remote, payload }
    }

    pub fn remote(&self) -> (r: Ipv4Endpoint)
        ensures
            r == self@.remote,
    {
        self.remote
    }

    pub fn payload(&self) -> (r: &Vec<u8>)
        ensures
            r@ == self@.payload,
    {
        &self.payload
    }
}

/// A UDP protocol control block: a local endpoint and the datagrams
/// received for it.
#[derive(Debug)]
pub struct UdpPcb {
    local: Ipv4Endpoint,
    receive_queue: VecDeque<ReceivedDatagram>,
}

/// What a [`UdpPcb`] holds.
pub struct UdpPcbView {
    pub local: Ipv4Endpoint,
    pub queue: Seq<ReceivedDatagramView>,
}

impl View for UdpPcb {
    type V = UdpPcbView;

    closed spec fn view(&self) -> UdpPcbView {
        UdpPcbView {
            local: self.local,
            queue: self.receive_queue@.map_values(|d: ReceivedDatagram| d@),
        }
    }
}

/// Errors of UDP PCB operations.
#[derive(Debug, Clone, Copy, PartialEq, Eq, Structural)]
pub enum UdpPcbError {
    Interrupted,
    NotFound,
    AlreadyBound,
    NoEphemeralPort,
}

/// A PCB bound to `bound` takes datagrams for `requested`: the ports agree,
/// and the addresses agree or one of them is the wildcard.
pub open spec fn udp_endpoint_matches(bound: Ipv4Endpoint, requested: Ipv4Endpoint) -> bool {
    bound.spec_port() == requested.spec_port() && (bound.spec_address() == requested.spec_address()
        || is_any(bound.spec_address()) || is_any(requested.spec_address()))
}

/// The PCB that a registry entry holds.
pub open spec fn udp_entry_view(e: RegistryEntry) -> UdpPcbView {
    match e {
        RegistryEntry::UdpPcb(p) => p@,
        _ => arbitrary(),
    }
}

/// Some PCB other than `except` is bound to an endpoint matching `local`.
pub open spec fn udp_endpoint_taken(pcbs: Map<u64, UdpPcbView>, except: u64, local: Ipv4Endpoint) -> bool {
    exists|k: u64| #[trigger] pcbs.dom().contains(k) && k != except && udp_endpoint_matches(
        pcbs[k].local,
        local,
    )
}

/// Some PCB other than `except` holds an endpoint matching `address:port`.
pub open spec fn udp_port_taken(pcbs: Map<u64, UdpPcbView>, except: u64, address: Ipv4Addr, port: u16) -> bool {
    udp_endpoint_taken(pcbs, except, Ipv4Endpoint::spec_new(address, port))
}

/// The bytes a read into a buffer of `capacity` bytes takes of `payload`.
pub open spec fn datagram_read_len(payload: Seq<u8>, capacity: int) -> int {
    if capacity < payload.len() {
        capacity
    } else {
        payload.len() as int
    }
}

fn endpoint_matches(bound: Ipv4Endpoint, requested: Ipv4Endpoint) -> (r: bool)
    ensures
        r == udp_endpoint_matches(bound, requested),
{
    bound.port() == requested.port() && (bound.address() == requested.address() || bound.address().is_unspecified() || requested.address().is_unspecified())
}

/// What giving `pcb` an ephemeral port does: refused for a missing PCB; a
/// PCB with a port keeps it; otherwise it gets the lowest port of the
/// dynamic range whose endpoint no other PCB holds, refused when there is
/// none. A refusal leaves the PCBs as they were.
pub open spec fn udp_assign_outcome(
    before: Map<u64, UdpPcbView>,
    after: Map<u64, UdpPcbView>,
    pcb: UdpPcbKey,
    r: Result<Ipv4Endpoint, UdpPcbError>,
) -> bool {
    let k = canonical_key(pcb@);
    if !before.dom().contains(k) {
        r == Err::<Ipv4Endpoint, UdpPcbError>(UdpPcbError::NotFound) && after == before
    } else {
        let p = before[k];
        let a = p.local.spec_address();
        &&& p.local.spec_port() != 0 ==> r == Ok::<Ipv4Endpoint, UdpPcbError>(p.local) && after
            == before
        &&& p.local.spec_port() == 0 ==> match r {
            Ok(e) => {
                &&& e.spec_address() == a
                &&& DYNAMIC_PORT_MIN <= e.spec_port() <= DYNAMIC_PORT_MAX
                &&& !udp_port_taken(before, k, a, e.spec_port())
                &&& forall|q: u16|
                    DYNAMIC_PORT_MIN <= q < e.spec_port() ==> #[trigger] udp_port_taken(before, k, a, q)
                &&& after == before.insert(k, UdpPcbView { local: e, ..p })
            },
            Err(err) => {
                &&& err == UdpPcbError::NoEphemeralPort
                &&& forall|q: u16|
                    DYNAMIC_PORT_MIN <= q <= DYNAMIC_PORT_MAX ==> #[trigger] udp_port_taken(
                        before,
                        k,
                        a,
                        q,
                    )
                &&& after == before
            },
        }
    }
}

/// What binding `pcb` to `local` does: refused for a missing PCB or an
/// endpoint another PCB holds, leaving the PCBs as they were; otherwise
/// the PCB takes `local`.
pub open spec fn udp_bind_outcome(
    before: Map<u64, UdpPcbView>,
    after: Map<u64, UdpPcbView>,
    pcb: UdpPcbKey,
    local: Ipv4Endpoint,
    r: Result<(), UdpPcbError>,
) -> bool {
    let k = canonical_key(pcb@);
    &&& if !before.dom().contains(k) {
        r == Err::<(), UdpPcbError>(UdpPcbError::NotFound)
    } else if udp_endpoint_taken(before, k, local) {
        r == Err::<(), UdpPcbError>(UdpPcbError::AlreadyBound)
    } else {
        r is Ok && after == before.insert(k, UdpPcbView { local, ..before[k] })
    }
    &&& r is Err ==> after == before
}

/// What reading a datagram of `pcb` into a buffer holding `buf_before`
/// does: refused for a missing PCB; `None` when nothing is queued;
/// otherwise the oldest datagram leaves the queue, as much of it as fits is
/// copied to the front of the buffer, and its length read and sender are
/// given.
pub open spec fn udp_recv_outcome(
    before: Map<u64, UdpPcbView>,
    after: Map<u64, UdpPcbView>,
    pcb: UdpPcbKey,
    buf_before: Seq<u8>,
    buf_after: Seq<u8>,
    r: Result<Option<(usize, Ipv4Endpoint)>, UdpPcbError>,
) -> bool {
    let k = canonical_key(pcb@);
    &&& buf_after.len() == buf_before.len()
    &&& if !before.dom().contains(k) {
        r == Err::<Option<(usize, Ipv4Endpoint)>, UdpPcbError>(UdpPcbError::NotFound)
            && after == before && buf_after == buf_before
    } else if before[k].queue.len() == 0 {
        r == Ok::<Option<(usize, Ipv4Endpoint)>, UdpPcbError>(None) && after == before && buf_after
            == buf_before
    } else {
        let p = before[k];
        let d = p.queue[0];
        let n = datagram_read_len(d.payload, buf_before.len() as int);
        &&& r == Ok::<Option<(usize, Ipv4Endpoint)>, UdpPcbError>(Some((n as usize, d.remote)))
        &&& buf_after == d.payload.subrange(0, n) + buf_before.subrange(n, buf_before.len() as int)
        &&& after == before.insert(k, UdpPcbView { queue: p.queue.drop_first(), ..p })
    }
}

/// The UDP PCBs of the stack.
pub struct UdpPcbRegistry {
    pcbs: Slots,
}

impl View for UdpPcbRegistry {
    type V = Map<u64, UdpPcbView>;

    closed spec fn view(&self) -> Map<u64, UdpPcbView> {
        slot_entries(self.pcbs).map_values(|e: RegistryEntry| udp_entry_view(e))
    }
}

impl UdpPcbRegistry {
    /// Every entry is a UDP PCB, and there are finitely many.
    pub closed spec fn wf(&self) -> bool {
        &&& slot_entries(self.pcbs).dom().finite()
        &&& forall|k: u64| #[trigger]
            slot_entries(self.pcbs).dom().contains(k) ==> slot_entries(self.pcbs)[k] is UdpPcb
    }

    pub fn new() -> (r: UdpPcbRegistry)
        ensures
            r.wf(),
            r@ == Map::<u64, UdpPcbView>::empty(),
    {
        let r = UdpPcbRegistry { pcbs: slots_new() };
        assert(r@ =~= Map::<u64, UdpPcbView>::empty());
        r
    }

    /// The number of PCBs.
    pub fn len(&self) -> (r: usize)
        requires
            self.wf(),
        ensures
            r == self@.len(),
    {
        let keys = slots_keys(&self.pcbs);
        proof {
            assert(keys@.to_set() =~= self@.dom());
            keys@.unique_seq_to_set();
        }
        keys.len()
    }

    /// Opens an unbound PCB and gives its key.
    pub fn open(&mut self) -> (r: UdpPcbKey)
        requires
            old(self).wf(),
            old(self)@.len() < u32::MAX - 1,
        ensures
            final(self).wf(),
            !old(self)@.dom().contains(r@),
            canonical_key(r@) == r@,
            final(self)@ == old(self)@.insert(
                r@,
                UdpPcbView { local: final(self)@[r@].local, queue: Seq::empty() },
            ),
            is_any(final(self)@[r@].local.spec_address()),
            final(self)@[r@].local.spec_port() == 0,
    {
        let pcb = UdpPcb {
            local: Ipv4Endpoint::new(Ipv4Addr::any(), 0),
            receive_queue: VecDeque::new(),
        };
        let ghost pv = pcb@;
        assert(pv.queue =~= Seq::<ReceivedDatagramView>::empty());
        proof {
            assert(slot_entries(self.pcbs).dom() =~= self@.dom());
        }
        let id = slots_insert(&mut self.pcbs, RegistryEntry::UdpPcb(pcb));
        assert(self@ =~= old(self)@.insert(id, pv));
        UdpPcbKey::from_id(id)
    }

    /// Removes the PCB `pcb`.
    pub fn close(&mut self, pcb: UdpPcbKey) -> (r: Result<(), UdpPcbError>)
        requires
            old(self).wf(),
        ensures
            final(self).wf(),
            old(self)@.dom().contains(canonical_key(pcb@)) ==> r is Ok && final(self)@ == old(self)@.remove(canonical_key(pcb@)),
            !old(self)@.dom().contains(canonical_key(pcb@)) ==> r == Err::<(), UdpPcbError>(
                UdpPcbError::NotFound,
            ) && final(self)@ == old(self)@,
    {
        match slots_remove(&mut self.pcbs, pcb.id()) {
            Some(_) => {
                assert(self@ =~= old(self)@.remove(canonical_key(pcb@)));
                Ok(())
            },
            None => Err(UdpPcbError::NotFound),
        }
    }

    /// The PCB `pcb`, if the registry holds it.
    pub fn get(&self, pcb: UdpPcbKey) -> (r: Option<&UdpPcb>)
        requires
            self.wf(),
        ensures
            match r {
                Some(p) => self@.dom().contains(canonical_key(pcb@)) && p@ == self@[canonical_key(
                    pcb@,
                )],
                None => !self@.dom().contains(canonical_key(pcb@)),
            },
    {
        match slots_get(&self.pcbs, pcb.id()) {
            Some(RegistryEntry::UdpPcb(p)) => Some(p),
            _ => None,
        }
    }

    /// Binds `pcb` to `local`: refused when another PCB holds a matching
    /// endpoint.
    pub fn bind(&mut self, pcb: UdpPcbKey, local: Ipv4Endpoint) -> (r: Result<(), UdpPcbError>)
        requires
            old(self).wf(),
        ensures
            final(self).wf(),
            udp_bind_outcome(old(self)@, final(self)@, pcb, local, r),
    {
        let key = canonical_id(pcb.id());
        if self.get(pcb).is_none() {
            return Err(UdpPcbError::NotFound);
        }
        let keys = slots_keys(&self.pcbs);
        let mut i: usize = 0;
        while i < keys.len()
            invariant
                self.wf(),
                self@ == old(self)@,
                key == canonical_key(pcb@),
                self@.dom().contains(key),
                i <= keys@.len(),
                forall|j: int| 0 <= j < keys@.len() ==> self@.dom().contains(#[trigger] keys@[j]),
                forall|k: u64| self@.dom().contains(k) ==> keys@.contains(k),
                forall|j: int| 0 <= j < keys@.len() ==> canonical_key(#[trigger] keys@[j]) == keys@[j],
                forall|j: int|
                    0 <= j < i ==> keys@[j] == key || !udp_endpoint_matches(
                        #[trigger] self@[keys@[j]].local,
                        local,
                    ),
            decreases keys@.len() - i,
        {
            let k = keys[i];
            if k != key {
                match slots_get(&self.pcbs, k) {
                    Some(RegistryEntry::UdpPcb(other)) => {
                        if endpoint_matches(other.local, local) {
                            proof {
                                assert(self@.dom().contains(k));
                                assert(self@[k] == other@);
                                assert(udp_endpoint_taken(old(self)@, key, local));
                            }
                            return Err(UdpPcbError::AlreadyBound);
                        }
                    },
                    _ => {},
                }
            }
            i = i + 1;
        }
        proof {
            assert forall|k: u64| #[trigger] self@.dom().contains(k) && k != key implies !udp_endpoint_matches(
                self@[k].local,
                local,
            ) by {
                assert(keys@.contains(k));
                let j = choose|j: int| 0 <= j < keys@.len() && keys@[j] == k;
                assert(keys@[j] == k);
            }
        }
        let taken = slots_replace(&mut self.pcbs, key, RegistryEntry::Vacant);
        match taken {
            Some(RegistryEntry::UdpPcb(mut p)) => {
                assert(p@ == old(self)@[key]);
                p.local = local;
                assert(p@ == (UdpPcbView { local, ..old(self)@[key] }));
                let _ = slots_replace(&mut self.pcbs, key, RegistryEntry::UdpPcb(p));
                assert(self@ =~= old(self)@.insert(
                    key,
                    UdpPcbView { local, ..old(self)@[key] },
                ));
                Ok(())
            },
            _ => Err(UdpPcbError::NotFound),
        }
    }
}

impl UdpPcbRegistry {
    /// A PCB bound to an endpoint matching `local`, if any; which one, when
    /// several match, is up to the slot map's order.
    pub fn select(&self, local: Ipv4Endpoint) -> (r: Option<UdpPcbKey>)
        requires
            self.wf(),
        ensures
            match r {
                Some(k) => self@.dom().contains(k@) && canonical_key(k@) == k@
                    && udp_endpoint_matches(self@[k@].local, local),
                None => forall|k: u64|
                    #[trigger] self@.dom().contains(k) ==> !udp_endpoint_matches(
                        self@[k].local,
                        local,
                    ),
            },
    {
        let keys = slots_keys(&self.pcbs);
        let mut i: usize = 0;
        while i < keys.len()
            invariant
                self.wf(),
                i <= keys@.len(),
                forall|j: int| 0 <= j < keys@.len() ==> self@.dom().contains(#[trigger] keys@[j]),
                forall|k: u64| self@.dom().contains(k) ==> keys@.contains(k),
                forall|j: int| 0 <= j < keys@.len() ==> canonical_key(#[trigger] keys@[j]) == keys@[j],
                forall|j: int|
                    0 <= j < i ==> !udp_endpoint_matches(#[trigger] self@[keys@[j]].local, local),
            decreases keys@.len() - i,
        {
            let k = keys[i];
            match slots_get(&self.pcbs, k) {
                Some(RegistryEntry::UdpPcb(p)) => {
                    assert(self@[k] == p@);
                    if endpoint_matches(p.local, local) {
                        return Some(UdpPcbKey::from_id(k));
                    }
                },
                _ => {},
            }
            i = i + 1;
        }
        proof {
            assert forall|k: u64| #[trigger] self@.dom().contains(k) implies !udp_endpoint_matches(
                self@[k].local,
                local,
            ) by {
                assert(keys@.contains(k));
                let j = choose|j: int| 0 <= j < keys@.len() && keys@[j] == k;
                assert(keys@[j] == k);
            }
        }
        None
    }

    /// Queues `datagram` on `pcb`.
    pub fn enqueue(&mut self, pcb: UdpPcbKey, datagram: ReceivedDatagram) -> (r: Result<(), UdpPcbError>)
        requires
            old(self).wf(),
        ensures
            final(self).wf(),
            old(self)@.dom().contains(canonical_key(pcb@)) ==> r is Ok && final(self)@ == old(self)@.insert(
                canonical_key(pcb@),
                UdpPcbView {
                    queue: old(self)@[canonical_key(pcb@)].queue.push(datagram@),
                    ..old(self)@[canonical_key(pcb@)]
                },
            ),
            !old(self)@.dom().contains(canonical_key(pcb@)) ==> r == Err::<(), UdpPcbError>(
                UdpPcbError::NotFound,
            ) && final(self)@ == old(self)@,
    {
        let key = canonical_id(pcb.id());
        let ghost dv = datagram@;
        match slots_replace(&mut self.pcbs, key, RegistryEntry::Vacant) {
            Some(RegistryEntry::UdpPcb(mut p)) => {
                let ghost before = p.receive_queue@;
                p.receive_queue.push_back(datagram);
                assert(p@ == (UdpPcbView { queue: old(self)@[key].queue.push(dv), ..old(self)@[key] })) by {
                    assert(p.receive_queue@.map_values(|d: ReceivedDatagram| d@) =~= before.map_values(
                        |d: ReceivedDatagram| d@,
                    ).push(dv));
                }
                let _ = slots_replace(&mut self.pcbs, key, RegistryEntry::UdpPcb(p));
                assert(self@ =~= old(self)@.insert(
                    key,
                    UdpPcbView { queue: old(self)@[key].queue.push(dv), ..old(self)@[key] },
                ));
                Ok(())
            },
            _ => {
                assert(self@ =~= old(self)@);
                Err(UdpPcbError::NotFound)
            },
        }
    }

    /// Reads the oldest datagram queued on `pcb` into `buffer`, as much of
    /// it as fits, and gives the number of bytes read and the sender; `None`
    /// when nothing is queued, so that the caller may wait and try again.
    pub fn recv_from(&mut self, pcb: UdpPcbKey, buffer: &mut [u8]) -> (r: Result<
        Option<(usize, Ipv4Endpoint)>,
        UdpPcbError,
    >)
        requires
            old(self).wf(),
        ensures
            final(self).wf(),
            udp_recv_outcome(old(self)@, final(self)@, pcb, old(buffer)@, final(buffer)@, r),
    {
        let key = canonical_id(pcb.id());
        match slots_replace(&mut self.pcbs, key, RegistryEntry::Vacant) {
            Some(RegistryEntry::UdpPcb(mut p)) => {
                let ghost pv = p@;
                let ghost q = p.receive_queue@;
                match p.receive_queue.pop_front() {
                    Some(datagram) => {
                        assert(datagram@ == pv.queue[0]);
                        assert(p@ == (UdpPcbView { queue: pv.queue.drop_first(), ..pv })) by {
                            assert(p.receive_queue@.map_values(|d: ReceivedDatagram| d@)
                                =~= pv.queue.drop_first());
                        }
                        let payload = datagram.payload();
                        let n = if buffer.len() < payload.len() {
                            buffer.len()
                        } else {
                            payload.len()
                        };
                        let mut i: usize = 0;
                        while i < n
                            invariant
                                n <= buffer@.len(),
                                n <= payload@.len(),
                                i <= n,
                                buffer@.len() == old(buffer)@.len(),
                                buffer@ == payload@.subrange(0, i as int) + old(buffer)@.subrange(
                                    i as int,
                                    old(buffer)@.len() as int,
                                ),
                            decreases n - i,
                        {
                            buffer[i] = payload[i];
                            i = i + 1;
                            assert(buffer@ =~= payload@.subrange(0, i as int) + old(buffer)@.subrange(
                                i as int,
                                old(buffer)@.len() as int,
                            ));
                        }
                        let remote = datagram.remote();
                        let _ = slots_replace(&mut self.pcbs, key, RegistryEntry::UdpPcb(p));
                        assert(self@ =~= old(self)@.insert(
                            key,
                            UdpPcbView { queue: pv.queue.drop_first(), ..pv },
                        ));
                        Ok(Some((n, remote)))
                    },
                    None => {
                        assert(pv.queue.len() == 0);
                        let _ = slots_replace(&mut self.pcbs, key, RegistryEntry::UdpPcb(p));
                        assert(self@ =~= old(self)@);
                        assert(buffer@ =~= old(buffer)@);
                        Ok(None)
                    },
                }
            },
            _ => {
                assert(self@ =~= old(self)@);
                Err(UdpPcbError::NotFound)
            },
        }
    }
}

impl UdpPcbRegistry {
    /// Whether a PCB other than key number `except` is bound to an
    /// endpoint matching `local`.
    pub fn endpoint_taken(&self, except: u64, local: Ipv4Endpoint) -> (r: bool)
        requires
            self.wf(),
        ensures
            r == udp_endpoint_taken(self@, except, local),
    {
        let keys = slots_keys(&self.pcbs);
        let mut i: usize = 0;
        while i < keys.len()
            invariant
                self.wf(),
                i <= keys@.len(),
                forall|j: int| 0 <= j < keys@.len() ==> self@.dom().contains(#[trigger] keys@[j]),
                forall|k: u64| self@.dom().contains(k) ==> keys@.contains(k),
                forall|j: int| 0 <= j < keys@.len() ==> canonical_key(#[trigger] keys@[j]) == keys@[j],
                forall|j: int|
                    0 <= j < i ==> keys@[j] == except || !udp_endpoint_matches(
                        #[trigger] self@[keys@[j]].local,
                        local,
                    ),
            decreases keys@.len() - i,
        {
            let k = keys[i];
            if k != except {
                match slots_get(&self.pcbs, k) {
                    Some(RegistryEntry::UdpPcb(other)) => {
                        assert(self@[k] == other@);
                        if endpoint_matches(other.local, local) {
                            assert(self@.dom().contains(k));
                            return true;
                        }
                    },
                    _ => {},
                }
            }
            i = i + 1;
        }
        proof {
            assert forall|k: u64| #[trigger] self@.dom().contains(k) && k != except implies !udp_endpoint_matches(
                self@[k].local,
                local,
            ) by {
                assert(keys@.contains(k));
                let j = choose|j: int| 0 <= j < keys@.len() && keys@[j] == k;
                assert(keys@[j] == k);
            }
        }
        false
    }

    /// Gives `pcb` an ephemeral port when it has none: the lowest port of
    /// the dynamic range whose endpoint no other PCB holds.
    pub fn assign_dynamic_port(&mut self, pcb: UdpPcbKey) -> (r: Result<Ipv4Endpoint, UdpPcbError>)
        requires
            old(self).wf(),
        ensures
            final(self).wf(),
            udp_assign_outcome(old(self)@, final(self)@, pcb, r),
    {
        let key = canonical_id(pcb.id());
        let local = match self.get(pcb) {
            Some(p) => p.local,
            None => {
                return Err(UdpPcbError::NotFound);
            },
        };
        if local.port() != 0 {
            return Ok(local);
        }
        let mut port: u32 = DYNAMIC_PORT_MIN as u32;
        while port <= DYNAMIC_PORT_MAX as u32
            invariant
                self.wf(),
                self@ == old(self)@,
                key == canonical_key(pcb@),
                canonical_key(key) == key,
                self@.dom().contains(key),
                local == self@[key].local,
                local.spec_port() == 0,
                DYNAMIC_PORT_MIN <= port <= DYNAMIC_PORT_MAX as u32 + 1,
                forall|q: u16|
                    DYNAMIC_PORT_MIN <= q < port ==> #[trigger] udp_port_taken(
                        self@,
                        key,
                        local.spec_address(),
                        q,
                    ),
            decreases DYNAMIC_PORT_MAX as u32 + 1 - port,
        {
            let candidate = Ipv4Endpoint::new(local.address(), port as u16);
            if !self.endpoint_taken(key, candidate) {
                let ghost entries = slot_entries(self.pcbs);
                assert(self@[key] == udp_entry_view(entries[key]));
                match slots_replace(&mut self.pcbs, key, RegistryEntry::Vacant) {
                    Some(RegistryEntry::UdpPcb(mut p)) => {
                        assert(p@ == old(self)@[key]);
                        p.local = candidate;
                        let ghost pv = p@;
                        let _ = slots_replace(&mut self.pcbs, key, RegistryEntry::UdpPcb(p));
                        assert(slot_entries(self.pcbs) == entries.insert(key, RegistryEntry::Vacant).insert(
                            key,
                            RegistryEntry::UdpPcb(p),
                        ));
                        assert(self@ =~= old(self)@.insert(key, pv));
                        assert(port as u16 == port);
                        assert(candidate.spec_port() == port as u16);
                        assert(candidate == Ipv4Endpoint::spec_new(local.spec_address(), port as u16));
                        assert(!udp_port_taken(old(self)@, key, local.spec_address(), port as u16));
                        assert(pv == (UdpPcbView { local: candidate, ..old(self)@[key] }));
                        return Ok(candidate);
                    },
                    _ => {
                        return Err(UdpPcbError::NotFound);
                    },
                }
            }
            port = port + 1;
        }
        Err(UdpPcbError::NoEphemeralPort)
    }
}

/// Datagrams are read in the order they were queued: after `d` is queued
/// on a PCB, the next read gives the oldest datagram that was waiting
/// before, or `d` itself when none was, and leaves the rest in order.
pub proof fn lemma_udp_queue_is_fifo(
    before: Map<u64, UdpPcbView>,
    after: Map<u64, UdpPcbView>,
    pcb: UdpPcbKey,
    d: ReceivedDatagramView,
    buf_before: Seq<u8>,
    buf_after: Seq<u8>,
    r: Result<Option<(usize, Ipv4Endpoint)>, UdpPcbError>,
)
    requires
        before.dom().contains(canonical_key(pcb@)),
        udp_recv_outcome(
            before.insert(
                canonical_key(pcb@),
                UdpPcbView {
                    queue: before[canonical_key(pcb@)].queue.push(d),
                    ..before[canonical_key(pcb@)]
                },
            ),
            after,
            pcb,
            buf_before,
            buf_after,
            r,
        ),
    ensures
        ({
            let k = canonical_key(pcb@);
            let q = before[k].queue;
            let first = if q.len() == 0 { d } else { q[0] };
            let n = datagram_read_len(first.payload, buf_before.len() as int);
            &&& r == Ok::<Option<(usize, Ipv4Endpoint)>, UdpPcbError>(Some((n as usize, first.remote)))
            &&& buf_after.subrange(0, n) == first.payload.subrange(0, n)
            &&& after[k].queue == (if q.len() == 0 { q } else { q.drop_first().push(d) })
            &&& after[k].local == before[k].local
        }),
{
    let k = canonical_key(pcb@);
    let q = before[k].queue;
    let first = if q.len() == 0 { d } else { q[0] };
    let n = datagram_read_len(first.payload, buf_before.len() as int);
    assert(q.push(d)[0] == first);
    assert(buf_after.subrange(0, n) =~= first.payload.subrange(0, n));
    assert(q.push(d).drop_first() =~= (if q.len() == 0 { q } else { q.drop_first().push(d) }));
}

/// Closing a PCB releases its endpoint: once `closed` is removed, binding
/// another PCB to an endpoint that only `closed` held succeeds.
pub proof fn lemma_udp_close_releases_endpoint(
    before: Map<u64, UdpPcbView>,
    after: Map<u64, UdpPcbView>,
    closed: UdpPcbKey,
    pcb: UdpPcbKey,
    local: Ipv4Endpoint,
    r: Result<(), UdpPcbError>,
)
    requires
        before.dom().contains(canonical_key(pcb@)),
        canonical_key(pcb@) != canonical_key(closed@),
        forall|k: u64|
            #[trigger] before.dom().contains(k) && k != canonical_key(closed@) && k != canonical_key(
                pcb@,
            ) ==> !udp_endpoint_matches(before[k].local, local),
        udp_bind_outcome(before.remove(canonical_key(closed@)), after, pcb, local, r),
    ensures
        r is Ok,
        after[canonical_key(pcb@)].local == local,
        !after.dom().contains(canonical_key(closed@)),
{
    let mid = before.remove(canonical_key(closed@));
    assert(!udp_endpoint_taken(mid, canonical_key(pcb@), local));
}

/// The number of the live key that key number `id` stands for.
pub(crate) fn canonical_id(id: u64) -> (r: u64)
    ensures
        r == canonical_key(id),
        canonical_key(r) == r,
{
    proof {
        lemma_canonical_idempotent(id);
    }
    id | 0x1_0000_0000
}

} // verus!
