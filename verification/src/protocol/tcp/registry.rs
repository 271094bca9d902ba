use vstd::prelude::*;

use crate::protocol::ipv4::addr::{is_any, Ipv4Addr, Ipv4Endpoint};
use crate::protocol::tcp::pcb::{
    other_than, pcb_accept_syn, pcb_fresh, pcb_retrans_info, tcp_fresh_view, TcpPcb, TcpPcbView,
};
use crate::protocol::tcp::retrans::{
    retrans_any_expired, retrans_due_entries, retrans_step, Retrans, RetransView,
};
use crate::protocol::tcp::{TcpPcbKey, TcpState};
use crate::protocol::udp::registry::{canonical_id, DYNAMIC_PORT_MAX, DYNAMIC_PORT_MIN};
use crate::slots::{
    canonical_key, slot_entries, slots_get, slots_insert, slots_keys,
    slots_new, slots_remove, slots_replace, RegistryEntry, Slots,
};

verus! {

/// Errors of TCP PCB operations.
#[derive(Debug, Clone, Copy, PartialEq, Eq, Structural)]
pub enum TcpPcbError {
    Interrupted,
    NotFound,
    AlreadyBound,
    NoEphemeralPort,
    InvalidState(TcpState),
    InvalidEndpoint,
    BacklogFull,
}

/// The PCB that a registry entry holds.
pub open spec fn tcp_entry_view(e: RegistryEntry) -> TcpPcbView {
    match e {
        RegistryEntry::TcpPcb(p) => p@,
        _ => arbitrary(),
    }
}

/// The endpoint is `0.0.0.0:0`.
pub open spec fn is_unspecified_endpoint(e: Ipv4Endpoint) -> bool {
    is_any(e.spec_address()) && e.spec_port() == 0
}

/// The PCB's local endpoint takes segments for `local`.
pub open spec fn tcp_local_matches(p: TcpPcbView, local: Ipv4Endpoint) -> bool {
    p.local.spec_port() == local.spec_port() && (p.local.spec_address() == local.spec_address()
        || is_any(p.local.spec_address()))
}

/// The PCB's remote endpoint takes segments from `remote`.
pub open spec fn tcp_remote_matches(p: TcpPcbView, remote: Ipv4Endpoint) -> bool {
    p.remote == remote || is_unspecified_endpoint(p.remote)
}

/// The PCB takes segments from `remote` to `local`.
pub open spec fn tcp_matches(p: TcpPcbView, local: Ipv4Endpoint, remote: Ipv4Endpoint) -> bool {
    tcp_local_matches(p, local) && tcp_remote_matches(p, remote)
}

/// The PCB, when open, keeps another PCB from binding `local`: it takes
/// segments for `local` from anyone, or it listens on every address at the
/// same port.
pub open spec fn tcp_bind_conflict(p: TcpPcbView, local: Ipv4Endpoint) -> bool {
    p.state != TcpState::Closed && ((tcp_local_matches(p, local) && is_unspecified_endpoint(
        p.remote,
    )) || (is_any(p.local.spec_address()) && p.local.spec_port() == local.spec_port()))
}

fn endpoint_is_unspecified(e: Ipv4Endpoint) -> (r: bool)
    ensures
        r == is_unspecified_endpoint(e),
{
    e.address().is_unspecified() && e.port() == 0
}

fn pcb_matches(p: &TcpPcb, local: Ipv4Endpoint, remote: Ipv4Endpoint) -> (r: bool)
    ensures
        r == tcp_matches(p@, local, remote),
{
    let l = p.local();
    let rm = p.remote();
    (l.port() == local.port() && (l.address() == local.address() || l.address().is_unspecified()))
        && (rm == remote || endpoint_is_unspecified(rm))
}

fn bind_conflict(p: &TcpPcb, local: Ipv4Endpoint) -> (r: bool)
    ensures
        r == tcp_bind_conflict(p@, local),
{
    let l = p.local();
    p.state() != TcpState::Closed && ((l.port() == local.port() && (l.address() == local.address()
        || l.address().is_unspecified()) && endpoint_is_unspecified(p.remote())) || (
    l.address().is_unspecified() && l.port() == local.port()))
}

/// What binding `pcb` to `local` does: refused for port zero, a missing
/// PCB, one that is not closed, or an endpoint another PCB holds, leaving
/// the PCBs as they were; otherwise the PCB takes `local`.
pub open spec fn tcp_bind_outcome(
    before: Map<u64, TcpPcbView>,
    after: Map<u64, TcpPcbView>,
    pcb: TcpPcbKey,
    local: Ipv4Endpoint,
    r: Result<(), TcpPcbError>,
) -> bool {
    let k = canonical_key(pcb@);
    &&& if local.spec_port() == 0 {
        r == Err::<(), TcpPcbError>(TcpPcbError::InvalidEndpoint)
    } else if !before.dom().contains(k) {
        r == Err::<(), TcpPcbError>(TcpPcbError::NotFound)
    } else if before[k].state != TcpState::Closed {
        r == Err::<(), TcpPcbError>(TcpPcbError::InvalidState(before[k].state))
    } else if tcp_bind_taken(before, k, local) {
        r == Err::<(), TcpPcbError>(TcpPcbError::AlreadyBound)
    } else {
        r is Ok && after == before.insert(k, TcpPcbView { local, ..before[k] })
    }
    &&& r is Err ==> after == before
}

/// What making `pcb` listen with room for `backlog` children does: refused
/// for a missing PCB, one that is not closed or one without a port, leaving
/// the PCBs as they were; otherwise the PCB listens, from any remote end.
pub open spec fn tcp_listen_outcome(
    before: Map<u64, TcpPcbView>,
    after: Map<u64, TcpPcbView>,
    pcb: TcpPcbKey,
    backlog: usize,
    r: Result<(), TcpPcbError>,
) -> bool {
    let k = canonical_key(pcb@);
    &&& if !before.dom().contains(k) {
        r == Err::<(), TcpPcbError>(TcpPcbError::NotFound)
    } else if before[k].state != TcpState::Closed {
        r == Err::<(), TcpPcbError>(TcpPcbError::InvalidState(before[k].state))
    } else if before[k].local.spec_port() == 0 {
        r == Err::<(), TcpPcbError>(TcpPcbError::InvalidEndpoint)
    } else {
        r is Ok && after == before.insert(
            k,
            TcpPcbView {
                backlog_max: backlog,
                remote: crate::protocol::tcp::pcb::unspecified(),
                state: TcpState::Listen,
                ..before[k]
            },
        )
    }
    &&& r is Err ==> after == before
}

/// The PCBs `m` after the established child `pcb` is queued on the backlog
/// of its listener, unless it waits there already.
pub open spec fn tcp_with_established(m: Map<u64, TcpPcbView>, pcb: TcpPcbKey) -> Map<
    u64,
    TcpPcbView,
> {
    let pk = canonical_key(m[canonical_key(pcb@)].parent->0@);
    let parent = m[pk];
    if parent.backlog.contains(pcb) {
        m
    } else {
        m.insert(pk, TcpPcbView { backlog: parent.backlog.push(pcb), ..parent })
    }
}

/// `after` is `before` with `pcb` closed: it and the children waiting in
/// its backlog are gone, and it waits in no backlog any more.
pub open spec fn tcp_closed(
    before: Map<u64, TcpPcbView>,
    after: Map<u64, TcpPcbView>,
    pcb: TcpPcbKey,
) -> bool {
    let k = canonical_key(pcb@);
    &&& after.dom() == before.dom().remove(k).difference(tcp_children_keys(before[k].backlog))
    &&& forall|j: u64| #[trigger]
        after.dom().contains(j) ==> after[j] == tcp_without_child(before[j], pcb)
}

/// What giving `pcb` the local endpoint `local` toward `remote` does: a
/// nonzero port is taken as it is, unless an open connection holds the
/// same pair; port zero gets the lowest free port of the dynamic range.
/// A refusal leaves the PCBs as they were.
pub open spec fn tcp_assign_outcome(
    before: Map<u64, TcpPcbView>,
    after: Map<u64, TcpPcbView>,
    pcb: TcpPcbKey,
    local: Ipv4Endpoint,
    remote: Ipv4Endpoint,
    r: Result<Ipv4Endpoint, TcpPcbError>,
) -> bool {
    &&& {
        let k = canonical_key(pcb@);
        let a = local.spec_address();
        if !before.dom().contains(k) {
            r == Err::<Ipv4Endpoint, TcpPcbError>(TcpPcbError::NotFound)
        } else if local.spec_port() != 0 {
            if tcp_match_taken(before, k, local, remote, false) {
                r == Err::<Ipv4Endpoint, TcpPcbError>(TcpPcbError::AlreadyBound)
            } else {
                r == Ok::<Ipv4Endpoint, TcpPcbError>(local) && after == before.insert(
                    k,
                    TcpPcbView { local, ..before[k] },
                )
            }
        } else {
            match r {
                Ok(e) => {
                    &&& e.spec_address() == a
                    &&& DYNAMIC_PORT_MIN <= e.spec_port() <= DYNAMIC_PORT_MAX
                    &&& !tcp_port_taken(before, k, a, e.spec_port(), remote)
                    &&& forall|q: u16|
                        DYNAMIC_PORT_MIN <= q < e.spec_port() ==> #[trigger] tcp_port_taken(
                            before,
                            k,
                            a,
                            q,
                            remote,
                        )
                    &&& after == before.insert(k, TcpPcbView { local: e, ..before[k] })
                },
                Err(err) => {
                    &&& err == TcpPcbError::NoEphemeralPort
                    &&& forall|q: u16|
                        DYNAMIC_PORT_MIN <= q <= DYNAMIC_PORT_MAX
                            ==> #[trigger] tcp_port_taken(before, k, a, q, remote)
                },
            }
        }
    }
    &&& r is Err ==> after == before
}

/// The TCP PCBs of the stack.
pub struct TcpPcbRegistry {
    pcbs: Slots,
}

impl View for TcpPcbRegistry {
    type V = Map<u64, TcpPcbView>;

    closed spec fn view(&self) -> Map<u64, TcpPcbView> {
        slot_entries(self.pcbs).map_values(|e: RegistryEntry| tcp_entry_view(e))
    }
}

impl TcpPcbRegistry {
    /// Every entry is a TCP PCB, and there are finitely many.
    pub closed spec fn wf(&self) -> bool {
        &&& slot_entries(self.pcbs).dom().finite()
        &&& forall|k: u64| #[trigger]
            slot_entries(self.pcbs).dom().contains(k) ==> slot_entries(self.pcbs)[k] is TcpPcb
    }

    pub fn new() -> (r: TcpPcbRegistry)
        ensures
            r.wf(),
            r@ == Map::<u64, TcpPcbView>::empty(),
    {
        let r = TcpPcbRegistry { pcbs: slots_new() };
        assert(r@ =~= Map::<u64, TcpPcbView>::empty());
        r
    }

    /// The number of PCBs.
    pub fn len(&self) -> (r: usize)
        requires
            self.wf(),
        ensures
            r == self@.len(),
    {
        let keys = slots_keys(&self.pcbs);
        proof {
            assert(keys@.to_set() =~= self@.dom());
            keys@.unique_seq_to_set();
        }
        keys.len()
    }

    fn insert(&mut self, pcb: TcpPcb) -> (r: TcpPcbKey)
        requires
            old(self).wf(),
            old(self)@.len() < u32::MAX - 1,
        ensures
            final(self).wf(),
            !old(self)@.dom().contains(r@),
            canonical_key(r@) == r@,
            final(self)@ == old(self)@.insert(r@, pcb@),
    {
        let ghost pv = pcb@;
        proof {
            assert(slot_entries(self.pcbs).dom() =~= self@.dom());
        }
        let id = slots_insert(&mut self.pcbs, RegistryEntry::TcpPcb(pcb));
        assert(self@ =~= old(self)@.insert(id, pv));
        TcpPcbKey::from_id(id)
    }

    /// Opens a fresh PCB and gives its key.
    pub fn open(&mut self) -> (r: TcpPcbKey)
        requires
            old(self).wf(),
            old(self)@.len() < u32::MAX - 1,
        ensures
            final(self).wf(),
            !old(self)@.dom().contains(r@),
            canonical_key(r@) == r@,
            final(self)@ == old(self)@.insert(r@, final(self)@[r@]),
            pcb_fresh(final(self)@[r@]),
    {
        self.insert(TcpPcb::new())
    }

    /// A copy of the PCB `pcb`.
    pub fn get(&self, pcb: TcpPcbKey) -> (r: Result<TcpPcb, TcpPcbError>)
        requires
            self.wf(),
        ensures
            match r {
                Ok(p) => self@.dom().contains(canonical_key(pcb@)) && p@ == self@[canonical_key(
                    pcb@,
                )],
                Err(e) => !self@.dom().contains(canonical_key(pcb@)) && e == TcpPcbError::NotFound,
            },
    {
        match slots_get(&self.pcbs, pcb.id()) {
            Some(RegistryEntry::TcpPcb(p)) => Ok(p.duplicate()),
            _ => Err(TcpPcbError::NotFound),
        }
    }

    /// Puts `pcb` in place of the PCB `key`.
    pub fn replace(&mut self, key: TcpPcbKey, pcb: TcpPcb) -> (r: Result<(), TcpPcbError>)
        requires
            old(self).wf(),
        ensures
            final(self).wf(),
            old(self)@.dom().contains(canonical_key(key@)) ==> r is Ok && final(self)@ == old(self)@.insert(canonical_key(key@), pcb@),
            !old(self)@.dom().contains(canonical_key(key@)) ==> r == Err::<(), TcpPcbError>(
                TcpPcbError::NotFound,
            ) && final(self)@ == old(self)@,
    {
        let ghost pv = pcb@;
        match slots_replace(&mut self.pcbs, key.id(), RegistryEntry::TcpPcb(pcb)) {
            Some(_) => {
                assert(self@ =~= old(self)@.insert(canonical_key(key@), pv));
                Ok(())
            },
            None => {
                assert(self@ =~= old(self)@);
                Err(TcpPcbError::NotFound)
            },
        }
    }

    /// The numbers of all keys, each once.
    fn scan_keys(&self) -> (r: Vec<u64>)
        requires
            self.wf(),
        ensures
            r@.no_duplicates(),
            forall|j: int| 0 <= j < r@.len() ==> self@.dom().contains(#[trigger] r@[j]),
            forall|k: u64| self@.dom().contains(k) ==> r@.contains(k),
            forall|j: int| 0 <= j < r@.len() ==> canonical_key(#[trigger] r@[j]) == r@[j],
    {
        slots_keys(&self.pcbs)
    }

    fn pcb_at(&self, k: u64) -> (r: Option<&TcpPcb>)
        requires
            self.wf(),
            self@.dom().contains(k),
            canonical_key(k) == k,
        ensures
            r matches Some(p) && p@ == self@[k],
    {
        match slots_get(&self.pcbs, k) {
            Some(RegistryEntry::TcpPcb(p)) => Some(p),
            _ => None,
        }
    }
}

/// Some open PCB other than `except` keeps `local` from being bound.
pub open spec fn tcp_bind_taken(pcbs: Map<u64, TcpPcbView>, except: u64, local: Ipv4Endpoint) -> bool {
    exists|k: u64| #[trigger] pcbs.dom().contains(k) && k != except && tcp_bind_conflict(pcbs[k], local)
}

/// Some PCB other than `except` (an open one, when `open_only`) takes
/// segments from `remote` to `local`.
pub open spec fn tcp_match_taken(
    pcbs: Map<u64, TcpPcbView>,
    except: u64,
    local: Ipv4Endpoint,
    remote: Ipv4Endpoint,
    open_only: bool,
) -> bool {
    exists|k: u64|
        #[trigger] pcbs.dom().contains(k) && k != except && (!open_only || pcbs[k].state
            != TcpState::Closed) && tcp_matches(pcbs[k], local, remote)
}

impl TcpPcbRegistry {
    fn bind_taken(&self, except: u64, local: Ipv4Endpoint) -> (r: bool)
        requires
            self.wf(),
        ensures
            r == tcp_bind_taken(self@, except, local),
    {
        let keys = self.scan_keys();
        let mut i: usize = 0;
        while i < keys.len()
            invariant
                self.wf(),
                i <= keys@.len(),
                forall|j: int| 0 <= j < keys@.len() ==> self@.dom().contains(#[trigger] keys@[j]),
                forall|k: u64| self@.dom().contains(k) ==> keys@.contains(k),
                forall|j: int| 0 <= j < keys@.len() ==> canonical_key(#[trigger] keys@[j]) == keys@[j],
                forall|j: int|
                    0 <= j < i ==> keys@[j] == except || !tcp_bind_conflict(
                        #[trigger] self@[keys@[j]],
                        local,
                    ),
            decreases keys@.len() - i,
        {
            let k = keys[i];
            if k != except {
                if let Some(p) = self.pcb_at(k) {
                    if bind_conflict(p, local) {
                        assert(self@.dom().contains(k));
                        return true;
                    }
                }
            }
            i = i + 1;
        }
        proof {
            assert forall|k: u64| #[trigger] self@.dom().contains(k) && k != except implies !tcp_bind_conflict(
                self@[k],
                local,
            ) by {
                assert(keys@.contains(k));
                let j = choose|j: int| 0 <= j < keys@.len() && keys@[j] == k;
                assert(keys@[j] == k);
            }
        }
        false
    }

    fn match_taken(&self, except: u64, local: Ipv4Endpoint, remote: Ipv4Endpoint, open_only: bool) -> (r:
        bool)
        requires
            self.wf(),
        ensures
            r == tcp_match_taken(self@, except, local, remote, open_only),
    {
        let keys = self.scan_keys();
        let mut i: usize = 0;
        while i < keys.len()
            invariant
                self.wf(),
                i <= keys@.len(),
                forall|j: int| 0 <= j < keys@.len() ==> self@.dom().contains(#[trigger] keys@[j]),
                forall|k: u64| self@.dom().contains(k) ==> keys@.contains(k),
                forall|j: int| 0 <= j < keys@.len() ==> canonical_key(#[trigger] keys@[j]) == keys@[j],
                forall|j: int|
                    0 <= j < i ==> keys@[j] == except || !((!open_only || (
                    #[trigger] self@[keys@[j]]).state != TcpState::Closed) && tcp_matches(
                        self@[keys@[j]],
                        local,
                        remote,
                    )),
            decreases keys@.len() - i,
        {
            let k = keys[i];
            if k != except {
                if let Some(p) = self.pcb_at(k) {
                    if (!open_only || p.state() != TcpState::Closed) && pcb_matches(p, local, remote) {
                        assert(self@.dom().contains(k));
                        return true;
                    }
                }
            }
            i = i + 1;
        }
        proof {
            assert forall|k: u64| #[trigger] self@.dom().contains(k) && k != except implies !((!open_only
                || self@[k].state != TcpState::Closed) && tcp_matches(self@[k], local, remote)) by {
                assert(keys@.contains(k));
                let j = choose|j: int| 0 <= j < keys@.len() && keys@[j] == k;
                assert(keys@[j] == k);
            }
        }
        false
    }

    /// Binds the closed PCB `pcb` to `local`.
    pub fn bind(&mut self, pcb: TcpPcbKey, local: Ipv4Endpoint) -> (r: Result<(), TcpPcbError>)
        requires
            old(self).wf(),
        ensures
            final(self).wf(),
            tcp_bind_outcome(old(self)@, final(self)@, pcb, local, r),
    {
        if local.port() == 0 {
            return Err(TcpPcbError::InvalidEndpoint);
        }
        let key = canonical_id(pcb.id());
        let mut current = match self.get(pcb) {
            Ok(p) => p,
            Err(e) => {
                return Err(e);
            },
        };
        if current.state() != TcpState::Closed {
            return Err(TcpPcbError::InvalidState(current.state()));
        }
        if self.bind_taken(key, local) {
            return Err(TcpPcbError::AlreadyBound);
        }
        current.set_local(local);
        self.replace(pcb, current)
    }

    /// Makes the closed, bound PCB `pcb` listen, with room for `backlog`
    /// established children.
    pub fn listen(&mut self, pcb: TcpPcbKey, backlog: usize) -> (r: Result<(), TcpPcbError>)
        requires
            old(self).wf(),
        ensures
            final(self).wf(),
            tcp_listen_outcome(old(self)@, final(self)@, pcb, backlog, r),
    {
        let mut current = match self.get(pcb) {
            Ok(p) => p,
            Err(e) => {
                return Err(e);
            },
        };
        if current.state() != TcpState::Closed {
            return Err(TcpPcbError::InvalidState(current.state()));
        }
        if current.local().port() == 0 {
            return Err(TcpPcbError::InvalidEndpoint);
        }
        current.set_backlog_max(backlog);
        let local = current.local();
        let any = Ipv4Addr::any();
        proof {
            Ipv4Addr::lemma_spec_from_view(any);
        }
        current.listen(local, Ipv4Endpoint::new(any, 0));
        self.replace(pcb, current)
    }

    /// Makes a child of the listener `listener` for a SYN at `seq` from
    /// `remote` to `local`, answering with `iss`; refused when the listener's
    /// backlog is full.
    pub fn allocate_child(
        &mut self,
        listener: TcpPcbKey,
        local: Ipv4Endpoint,
        remote: Ipv4Endpoint,
        seq: u32,
        iss: u32,
    ) -> (r: Result<TcpPcbKey, TcpPcbError>)
        requires
            old(self).wf(),
            old(self)@.len() < u32::MAX - 1,
        ensures
            final(self).wf(),
            ({
                let k = canonical_key(listener@);
                if !old(self)@.dom().contains(k) {
                    r == Err::<TcpPcbKey, TcpPcbError>(TcpPcbError::NotFound)
                } else if old(self)@[k].state != TcpState::Listen {
                    r == Err::<TcpPcbKey, TcpPcbError>(
                        TcpPcbError::InvalidState(old(self)@[k].state),
                    )
                } else if old(self)@[k].backlog.len() >= old(self)@[k].backlog_max {
                    r == Err::<TcpPcbKey, TcpPcbError>(TcpPcbError::BacklogFull)
                } else {
                    r matches Ok(child) && !old(self)@.dom().contains(child@) && canonical_key(
                        child@,
                    ) == child@ && final(self)@ == old(self)@.insert(
                        child@,
                        pcb_accept_syn(
                            TcpPcbView { parent: Some(listener), ..tcp_fresh_view() },
                            local,
                            remote,
                            seq,
                            iss,
                        ),
                    )
                }
            }),
            r is Err ==> final(self)@ == old(self)@,
    {
        let listener_pcb = match self.get(listener) {
            Ok(p) => p,
            Err(e) => {
                return Err(e);
            },
        };
        if listener_pcb.state() != TcpState::Listen {
            return Err(TcpPcbError::InvalidState(listener_pcb.state()));
        }
        if listener_pcb.backlog_len() >= listener_pcb.backlog_max() {
            return Err(TcpPcbError::BacklogFull);
        }
        let mut child = TcpPcb::new();
        child.set_parent(Some(listener));
        child.accept_syn(local, remote, seq, iss);
        Ok(self.insert(child))
    }

    /// Queues the established child `pcb` on its listener's backlog, once.
    pub fn enqueue_established(&mut self, pcb: TcpPcbKey) -> (r: Result<(), TcpPcbError>)
        requires
            old(self).wf(),
        ensures
            final(self).wf(),
            ({
                let k = canonical_key(pcb@);
                if !old(self)@.dom().contains(k) {
                    r == Err::<(), TcpPcbError>(TcpPcbError::NotFound)
                } else if old(self)@[k].parent is None {
                    r == Err::<(), TcpPcbError>(TcpPcbError::InvalidState(TcpState::Established))
                } else if !old(self)@.dom().contains(canonical_key(old(self)@[k].parent->0@)) {
                    r == Err::<(), TcpPcbError>(TcpPcbError::NotFound)
                } else {
                    r is Ok && final(self)@ == tcp_with_established(old(self)@, pcb)
                }
            }),
            r is Err ==> final(self)@ == old(self)@,
    {
        let child = match self.get(pcb) {
            Ok(p) => p,
            Err(e) => {
                return Err(e);
            },
        };
        let parent = match child.parent() {
            Some(p) => p,
            None => {
                return Err(TcpPcbError::InvalidState(TcpState::Established));
            },
        };
        let mut parent_pcb = match self.get(parent) {
            Ok(p) => p,
            Err(e) => {
                return Err(e);
            },
        };
        if !parent_pcb.backlog_contains(pcb) {
            parent_pcb.backlog_push(pcb);
            return self.replace(parent, parent_pcb);
        }
        Ok(())
    }

    /// Takes the oldest established child of the listener `listener`;
    /// `None` when none waits, so that the caller may wait and try again.
    pub fn accept(&mut self, listener: TcpPcbKey) -> (r: Result<Option<TcpPcbKey>, TcpPcbError>)
        requires
            old(self).wf(),
        ensures
            final(self).wf(),
            ({
                let k = canonical_key(listener@);
                if !old(self)@.dom().contains(k) {
                    r == Err::<Option<TcpPcbKey>, TcpPcbError>(TcpPcbError::NotFound)
                } else if old(self)@[k].state != TcpState::Listen {
                    r == Err::<Option<TcpPcbKey>, TcpPcbError>(
                        TcpPcbError::InvalidState(old(self)@[k].state),
                    )
                } else if old(self)@[k].backlog.len() == 0 {
                    r == Ok::<Option<TcpPcbKey>, TcpPcbError>(None) && final(self)@ == old(self)@
                } else {
                    r == Ok::<Option<TcpPcbKey>, TcpPcbError>(Some(old(self)@[k].backlog[0]))
                        && final(self)@ == old(self)@.insert(
                        k,
                        TcpPcbView { backlog: old(self)@[k].backlog.drop_first(), ..old(self)@[k] },
                    )
                }
            }),
            r is Err ==> final(self)@ == old(self)@,
    {
        let mut current = match self.get(listener) {
            Ok(p) => p,
            Err(e) => {
                return Err(e);
            },
        };
        if current.state() != TcpState::Listen {
            return Err(TcpPcbError::InvalidState(current.state()));
        }
        match current.backlog_pop() {
            Some(child) => {
                match self.replace(listener, current) {
                    Ok(()) => Ok(Some(child)),
                    Err(e) => Err(e),
                }
            },
            None => Ok(None),
        }
    }

    /// Whether a PCB other than `excluded` that is open takes segments from
    /// `remote` to `local`.
    pub fn endpoint_in_use(&self, excluded: TcpPcbKey, local: Ipv4Endpoint, remote: Ipv4Endpoint) -> (r:
        bool)
        requires
            self.wf(),
        ensures
            r == tcp_match_taken(self@, excluded@, local, remote, true),
    {
        self.match_taken(excluded.id(), local, remote, true)
    }

    /// The state of `pcb` once it differs from `state`; `None` while it does
    /// not, so that the caller may wait and try again.
    pub fn wait_for_state_change(&self, pcb: TcpPcbKey, state: TcpState) -> (r: Result<
        Option<TcpState>,
        TcpPcbError,
    >)
        requires
            self.wf(),
        ensures
            ({
                let k = canonical_key(pcb@);
                if !self@.dom().contains(k) {
                    r == Err::<Option<TcpState>, TcpPcbError>(TcpPcbError::NotFound)
                } else if self@[k].state != state {
                    r == Ok::<Option<TcpState>, TcpPcbError>(Some(self@[k].state))
                } else {
                    r == Ok::<Option<TcpState>, TcpPcbError>(None)
                }
            }),
    {
        let current = match self.get(pcb) {
            Ok(p) => p,
            Err(e) => {
                return Err(e);
            },
        };
        if current.state() != state {
            Ok(Some(current.state()))
        } else {
            Ok(None)
        }
    }

    /// Checks that `pcb` exists, before its owner waits for it to change.
    pub fn wait_for_update(&self, pcb: TcpPcbKey) -> (r: Result<(), TcpPcbError>)
        requires
            self.wf(),
        ensures
            r is Ok <==> self@.dom().contains(canonical_key(pcb@)),
            r is Err ==> r == Err::<(), TcpPcbError>(TcpPcbError::NotFound),
    {
        match slots_get(&self.pcbs, pcb.id()) {
            Some(_) => Ok(()),
            None => Err(TcpPcbError::NotFound),
        }
    }
}

/// Established children are accepted in the order they were established:
/// queuing `child` on its listener's backlog puts it behind the children
/// that were waiting, so that the oldest of those is still the next one
/// that [`TcpPcbRegistry::accept`] gives, and `child` is when none was.
pub proof fn lemma_tcp_backlog_is_fifo(m: Map<u64, TcpPcbView>, child: TcpPcbKey)
    requires
        m.dom().contains(canonical_key(child@)),
        m[canonical_key(child@)].parent is Some,
        !m[canonical_key(m[canonical_key(child@)].parent->0@)].backlog.contains(child),
    ensures
        ({
            let pk = canonical_key(m[canonical_key(child@)].parent->0@);
            let waiting = m[pk].backlog;
            let queued = tcp_with_established(m, child)[pk].backlog;
            &&& queued == waiting.push(child)
            &&& queued[0] == (if waiting.len() == 0 { child } else { waiting[0] })
            &&& queued.drop_first() == (if waiting.len() == 0 { waiting } else {
                waiting.drop_first().push(child)
            })
        }),
{
    let pk = canonical_key(m[canonical_key(child@)].parent->0@);
    let waiting = m[pk].backlog;
    assert(waiting.push(child).drop_first() =~= (if waiting.len() == 0 { waiting } else {
        waiting.drop_first().push(child)
    }));
}

/// The key numbers of the children in a backlog.
pub open spec fn tcp_children_keys(backlog: Seq<TcpPcbKey>) -> Set<u64> {
    Set::new(|j: u64| exists|i: int| 0 <= i < backlog.len() && canonical_key(#[trigger] backlog[i]@) == j)
}

/// The PCB with `pcb` taken out of its backlog.
pub open spec fn tcp_without_child(p: TcpPcbView, pcb: TcpPcbKey) -> TcpPcbView {
    TcpPcbView { backlog: p.backlog.filter(other_than(pcb)), ..p }
}

/// The PCB is in TIME-WAIT past its deadline at `timestamp`.
pub open spec fn tcp_time_wait_expired(p: TcpPcbView, timestamp: u64) -> bool {
    p.state == TcpState::TimeWait && match p.time_wait_until {
        Some(until) => timestamp > until,
        None => false,
    }
}

impl TcpPcbRegistry {
    /// Removes `pcb`, the children waiting in its backlog, and `pcb` from
    /// every backlog it waits in; says whether `pcb` existed.
    pub fn close(&mut self, pcb: TcpPcbKey) -> (r: bool)
        requires
            old(self).wf(),
        ensures
            final(self).wf(),
            ({
                let k = canonical_key(pcb@);
                if !old(self)@.dom().contains(k) {
                    !r && final(self)@ == old(self)@
                } else {
                    r && tcp_closed(old(self)@, final(self)@, pcb)
                }
            }),
    {
        let key = canonical_id(pcb.id());
        let ghost old_view = self@;
        let mut removed = match slots_remove(&mut self.pcbs, key) {
            Some(RegistryEntry::TcpPcb(p)) => p,
            _ => {
                assert(self@ =~= old(self)@);
                return false;
            },
        };
        let ghost children_set = tcp_children_keys(removed@.backlog);
        let children = removed.take_backlog();
        let mut i: usize = 0;
        while i < children.len()
            invariant
                self.wf(),
                children@ == old_view[key].backlog,
                children_set == tcp_children_keys(children@),
                old_view == old(self)@,
                old_view.dom().contains(key),
                i <= children@.len(),
                self@.dom() == old_view.dom().remove(key).difference(
                    Set::new(|j: u64| exists|x: int| 0 <= x < i && canonical_key(#[trigger] children@[x]@) == j),
                ),
                forall|j: u64| #[trigger] self@.dom().contains(j) ==> self@[j] == old_view[j],
            decreases children@.len() - i,
        {
            let child = children[i];
            let ghost before = self@;
            let ghost done = Set::new(
                |j: u64| exists|x: int| 0 <= x < i && canonical_key(#[trigger] children@[x]@) == j,
            );
            let _ = slots_remove(&mut self.pcbs, child.id());
            assert(self@ =~= before.remove(canonical_key(child@)));
            i = i + 1;
            let ghost done2 = Set::new(
                |j: u64| exists|x: int| 0 <= x < i && canonical_key(#[trigger] children@[x]@) == j,
            );
            assert forall|j: u64| done2.contains(j) <==> (done.contains(j) || j == canonical_key(
                child@,
            )) by {
                if done2.contains(j) {
                    let x = choose|x: int| 0 <= x < i && canonical_key(#[trigger] children@[x]@) == j;
                    if x < i - 1 {
                        assert(done.contains(j));
                    }
                }
                if done.contains(j) {
                    let x = choose|x: int| 0 <= x < i - 1 && canonical_key(#[trigger] children@[x]@) == j;
                    assert(done2.contains(j));
                }
                if j == canonical_key(child@) {
                    assert(children@[i - 1] == child);
                    assert(done2.contains(j));
                }
            }
            assert(self@.dom() =~= old_view.dom().remove(key).difference(done2));
        }
        assert(self@.dom() =~= old_view.dom().remove(key).difference(children_set));
        let ghost mid = self@;
        let keys = self.scan_keys();
        let mut n: usize = 0;
        while n < keys.len()
            invariant
                self.wf(),
                self@.dom() == mid.dom(),
                n <= keys@.len(),
                keys@.no_duplicates(),
                forall|j: int| 0 <= j < keys@.len() ==> mid.dom().contains(#[trigger] keys@[j]),
                forall|k: u64| mid.dom().contains(k) ==> keys@.contains(k),
                forall|j: int| 0 <= j < keys@.len() ==> canonical_key(#[trigger] keys@[j]) == keys@[j],
                forall|k: u64|
                    #[trigger] self@.dom().contains(k) ==> self@[k] == if keys@.subrange(
                        0,
                        n as int,
                    ).contains(k) {
                        tcp_without_child(mid[k], pcb)
                    } else {
                        mid[k]
                    },
            decreases keys@.len() - n,
        {
            let k = keys[n];
            let ghost before = self@;
            let handle = TcpPcbKey::from_id(k);
            match self.get(handle) {
                Ok(mut p) => {
                    p.backlog_remove(pcb);
                    let _ = self.replace(handle, p);
                    assert(self@ =~= before.insert(k, tcp_without_child(before[k], pcb)));
                },
                Err(_) => {},
            }
            proof {
                broadcast use vstd::seq_lib::lemma_seq_contains_after_push;

                assert(keys@.subrange(0, n as int + 1) =~= keys@.subrange(0, n as int).push(k));
                assert(!keys@.subrange(0, n as int).contains(k)) by {
                    if keys@.subrange(0, n as int).contains(k) {
                        let x = choose|x: int| 0 <= x < n && keys@.subrange(0, n as int)[x] == k;
                        assert(keys@[x] == keys@[n as int]);
                    }
                }
            }
            n = n + 1;
        }
        proof {
            assert(keys@.subrange(0, keys@.len() as int) =~= keys@);
        }
        true
    }

    /// The PCB that takes segments from `remote` to `local`: one that is not
    /// listening when there is one, else a listener.
    pub fn select(&self, local: Ipv4Endpoint, remote: Ipv4Endpoint) -> (r: Option<(TcpPcbKey, TcpState)>)
        requires
            self.wf(),
        ensures
            match r {
                Some((key, state)) => {
                    &&& self@.dom().contains(key@)
                    &&& canonical_key(key@) == key@
                    &&& tcp_matches(self@[key@], local, remote)
                    &&& state == self@[key@].state
                    &&& (exists|k: u64|
                        #[trigger] self@.dom().contains(k) && tcp_matches(self@[k], local, remote)
                            && self@[k].state != TcpState::Listen) ==> state != TcpState::Listen
                },
                None => forall|k: u64|
                    #[trigger] self@.dom().contains(k) ==> !tcp_matches(self@[k], local, remote),
            },
    {
        let keys = self.scan_keys();
        let mut found: Option<(u64, TcpState)> = None;
        let mut i: usize = 0;
        while i < keys.len()
            invariant
                self.wf(),
                i <= keys@.len(),
                forall|j: int| 0 <= j < keys@.len() ==> self@.dom().contains(#[trigger] keys@[j]),
                forall|k: u64| self@.dom().contains(k) ==> keys@.contains(k),
                forall|j: int| 0 <= j < keys@.len() ==> canonical_key(#[trigger] keys@[j]) == keys@[j],
                match found {
                    Some((k, st)) => self@.dom().contains(k) && canonical_key(k) == k && tcp_matches(
                        self@[k],
                        local,
                        remote,
                    ) && st == self@[k].state && ((exists|j: int|
                        0 <= j < i && tcp_matches(#[trigger] self@[keys@[j]], local, remote)
                            && self@[keys@[j]].state != TcpState::Listen) ==> st != TcpState::Listen),
                    None => forall|j: int|
                        0 <= j < i ==> !tcp_matches(#[trigger] self@[keys@[j]], local, remote),
                },
            decreases keys@.len() - i,
        {
            let k = keys[i];
            if let Some(p) = self.pcb_at(k) {
                if pcb_matches(p, local, remote) {
                    if p.state() != TcpState::Listen {
                        found = Some((k, p.state()));
                    } else if found.is_none() {
                        found = Some((k, p.state()));
                    }
                }
            }
            i = i + 1;
        }
        proof {
            match found {
                Some((k, st)) => {
                    if exists|k2: u64|
                        #[trigger] self@.dom().contains(k2) && tcp_matches(self@[k2], local, remote)
                            && self@[k2].state != TcpState::Listen {
                        let k2 = choose|k2: u64|
                            #[trigger] self@.dom().contains(k2) && tcp_matches(
                                self@[k2],
                                local,
                                remote,
                            ) && self@[k2].state != TcpState::Listen;
                        assert(keys@.contains(k2));
                        let j = choose|j: int| 0 <= j < keys@.len() && keys@[j] == k2;
                        assert(keys@[j] == k2);
                    }
                },
                None => {
                    assert forall|k: u64| #[trigger] self@.dom().contains(k) implies !tcp_matches(
                        self@[k],
                        local,
                        remote,
                    ) by {
                        assert(keys@.contains(k));
                        let j = choose|j: int| 0 <= j < keys@.len() && keys@[j] == k;
                        assert(keys@[j] == k);
                    }
                },
            }
        }
        match found {
            Some((k, st)) => Some((TcpPcbKey::from_id(k), st)),
            None => None,
        }
    }
}

/// Some PCB other than `except` takes segments from `remote` to
/// `address:port`.
pub open spec fn tcp_port_taken(
    pcbs: Map<u64, TcpPcbView>,
    except: u64,
    address: Ipv4Addr,
    port: u16,
    remote: Ipv4Endpoint,
) -> bool {
    tcp_match_taken(pcbs, except, Ipv4Endpoint::spec_new(address, port), remote, false)
}

/// A PCB after a retransmission scan at `timestamp` (microseconds).
pub open spec fn tcp_due_step(p: TcpPcbView, timestamp: u64) -> TcpPcbView {
    if retrans_any_expired(p.retrans, timestamp) {
        TcpPcbView { state: TcpState::Closed, ..p }
    } else {
        TcpPcbView {
            retrans: p.retrans.map_values(
                |e: RetransView| retrans_step(e, timestamp, pcb_retrans_info(p)),
            ),
            ..p
        }
    }
}

/// The segments a PCB sends again in a scan at `timestamp`.
pub open spec fn tcp_due_list(p: TcpPcbView, timestamp: u64) -> Seq<RetransView> {
    if retrans_any_expired(p.retrans, timestamp) {
        Seq::empty()
    } else {
        retrans_due_entries(p.retrans, timestamp, pcb_retrans_info(p))
    }
}

/// The segments the PCBs `keys` send again, in that order.
pub open spec fn tcp_due_concat(pcbs: Map<u64, TcpPcbView>, keys: Seq<u64>, timestamp: u64) -> Seq<
    RetransView,
>
    decreases keys.len(),
{
    if keys.len() == 0 {
        Seq::empty()
    } else {
        tcp_due_concat(pcbs, keys.drop_last(), timestamp) + tcp_due_list(pcbs[keys.last()], timestamp)
    }
}

impl TcpPcbRegistry {
    /// Sets the local endpoint of `pcb` for a connection to `remote`: `local`
    /// itself when it has a port, else the lowest free port of the dynamic
    /// range on `local`'s address.
    pub fn assign_dynamic_port(&mut self, pcb: TcpPcbKey, local: Ipv4Endpoint, remote: Ipv4Endpoint) -> (r:
        Result<Ipv4Endpoint, TcpPcbError>)
        requires
            old(self).wf(),
        ensures
            final(self).wf(),
            tcp_assign_outcome(old(self)@, final(self)@, pcb, local, remote, r),
    {
        let key = canonical_id(pcb.id());
        let mut current = match self.get(pcb) {
            Ok(p) => p,
            Err(e) => {
                return Err(e);
            },
        };
        if local.port() != 0 {
            if self.match_taken(key, local, remote, false) {
                return Err(TcpPcbError::AlreadyBound);
            }
            current.set_local(local);
            return match self.replace(pcb, current) {
                Ok(()) => Ok(local),
                Err(e) => Err(e),
            };
        }
        let mut port: u32 = DYNAMIC_PORT_MIN as u32;
        while port <= DYNAMIC_PORT_MAX as u32
            invariant
                self.wf(),
                self@ == old(self)@,
                key == canonical_key(pcb@),
                canonical_key(key) == key,
                self@.dom().contains(key),
                current@ == self@[key],
                local.spec_port() == 0,
                DYNAMIC_PORT_MIN <= port <= DYNAMIC_PORT_MAX as u32 + 1,
                forall|q: u16|
                    DYNAMIC_PORT_MIN <= q < port ==> #[trigger] tcp_port_taken(
                        self@,
                        key,
                        local.spec_address(),
                        q,
                        remote,
                    ),
            decreases DYNAMIC_PORT_MAX as u32 + 1 - port,
        {
            let candidate = Ipv4Endpoint::new(local.address(), port as u16);
            if !self.match_taken(key, candidate, remote, false) {
                assert(port as u16 == port);
                current.set_local(candidate);
                return match self.replace(pcb, current) {
                    Ok(()) => Ok(candidate),
                    Err(e) => Err(e),
                };
            }
            port = port + 1;
        }
        Err(TcpPcbError::NoEphemeralPort)
    }

    /// Scans every PCB for segments due at `timestamp` (microseconds); a PCB
    /// with a segment past the deadline is closed instead. Gives the due
    /// segments, PCB by PCB in the order of the slot map.
    pub fn due_retrans(&mut self, timestamp: u64) -> (r: Vec<Retrans>)
        requires
            old(self).wf(),
        ensures
            final(self).wf(),
            final(self)@ == old(self)@.map_values(|p: TcpPcbView| tcp_due_step(p, timestamp)),
            exists|keys: Seq<u64>|
                keys.no_duplicates() && keys.to_set() == old(self)@.dom() && #[trigger] tcp_due_concat(
                    old(self)@,
                    keys,
                    timestamp,
                ) == r@.map_values(|e: Retrans| e@),
    {
        let keys = self.scan_keys();
        let mut out: Vec<Retrans> = Vec::new();
        let mut n: usize = 0;
        while n < keys.len()
            invariant
                self.wf(),
                self@.dom() == old(self)@.dom(),
                n <= keys@.len(),
                keys@.no_duplicates(),
                forall|j: int| 0 <= j < keys@.len() ==> old(self)@.dom().contains(#[trigger] keys@[j]),
                forall|k: u64| old(self)@.dom().contains(k) ==> keys@.contains(k),
                forall|j: int| 0 <= j < keys@.len() ==> canonical_key(#[trigger] keys@[j]) == keys@[j],
                forall|k: u64|
                    #[trigger] self@.dom().contains(k) ==> self@[k] == if keys@.subrange(
                        0,
                        n as int,
                    ).contains(k) {
                        tcp_due_step(old(self)@[k], timestamp)
                    } else {
                        old(self)@[k]
                    },
                out@.map_values(|e: Retrans| e@) == tcp_due_concat(
                    old(self)@,
                    keys@.subrange(0, n as int),
                    timestamp,
                ),
            decreases keys@.len() - n,
        {
            let k = keys[n];
            let ghost before = self@;
            let ghost outs = out@.map_values(|e: Retrans| e@);
            proof {
                broadcast use vstd::seq_lib::lemma_seq_contains_after_push;

                assert(keys@.subrange(0, n as int + 1) =~= keys@.subrange(0, n as int).push(k));
                assert(!keys@.subrange(0, n as int).contains(k)) by {
                    if keys@.subrange(0, n as int).contains(k) {
                        let x = choose|x: int| 0 <= x < n && keys@.subrange(0, n as int)[x] == k;
                        assert(keys@[x] == keys@[n as int]);
                    }
                }
                assert(keys@.subrange(0, n as int + 1).drop_last() =~= keys@.subrange(0, n as int));
            }
            let handle = TcpPcbKey::from_id(k);
            match self.get(handle) {
                Ok(mut p) => {
                    assert(p@ == old(self)@[k]);
                    let mut due = p.due_retrans(timestamp);
                    assert(p@ == tcp_due_step(old(self)@[k], timestamp));
                    let ghost dv = due@.map_values(|e: Retrans| e@);
                    assert(dv == tcp_due_list(old(self)@[k], timestamp));
                    let _ = self.replace(handle, p);
                    assert(self@ =~= before.insert(k, tcp_due_step(old(self)@[k], timestamp)));
                    let ghost out_before = out@;
                    out.append(&mut due);
                    assert(out@.map_values(|e: Retrans| e@) =~= outs + dv);
                },
                Err(_) => {},
            }
            n = n + 1;
        }
        proof {
            assert(keys@.subrange(0, keys@.len() as int) =~= keys@);
            assert(self@ =~= old(self)@.map_values(|p: TcpPcbView| tcp_due_step(p, timestamp)));
            assert(keys@.to_set() =~= old(self)@.dom());
        }
        out
    }

    /// Removes every PCB whose TIME-WAIT has expired at `timestamp` (seconds).
    pub fn expire_time_wait(&mut self, timestamp: u64)
        requires
            old(self).wf(),
        ensures
            final(self).wf(),
            final(self)@ == old(self)@.restrict(
                old(self)@.dom().filter(|k: u64| !tcp_time_wait_expired(old(self)@[k], timestamp)),
            ),
    {
        let keys = self.scan_keys();
        let mut expired: Vec<u64> = Vec::new();
        let mut n: usize = 0;
        while n < keys.len()
            invariant
                self.wf(),
                self@ == old(self)@,
                n <= keys@.len(),
                forall|j: int| 0 <= j < keys@.len() ==> self@.dom().contains(#[trigger] keys@[j]),
                forall|k: u64| self@.dom().contains(k) ==> keys@.contains(k),
                forall|j: int| 0 <= j < keys@.len() ==> canonical_key(#[trigger] keys@[j]) == keys@[j],
                forall|j: int| 0 <= j < expired@.len() ==> canonical_key(#[trigger] expired@[j]) == expired@[j],
                forall|k: u64|
                    expired@.contains(k) <==> (keys@.subrange(0, n as int).contains(k)
                        && tcp_time_wait_expired(self@[k], timestamp)),
            decreases keys@.len() - n,
        {
            let k = keys[n];
            proof {
                broadcast use vstd::seq_lib::lemma_seq_contains_after_push;

                assert(keys@.subrange(0, n as int + 1) =~= keys@.subrange(0, n as int).push(k));
            }
            if let Some(p) = self.pcb_at(k) {
                if p.time_wait_expired(timestamp) {
                    expired.push(k);
                }
            }
            n = n + 1;
        }
        assert(keys@.subrange(0, keys@.len() as int) =~= keys@);
        let ghost gone = expired@;
        let mut i: usize = 0;
        while i < expired.len()
            invariant
                self.wf(),
                gone == expired@,
                forall|j: int| 0 <= j < expired@.len() ==> canonical_key(#[trigger] expired@[j]) == expired@[j],
                forall|k: u64| expired@.contains(k) ==> old(self)@.dom().contains(k),
                i <= expired@.len(),
                self@.dom() == old(self)@.dom().difference(expired@.subrange(0, i as int).to_set()),
                forall|k: u64| #[trigger] self@.dom().contains(k) ==> self@[k] == old(self)@[k],
            decreases expired@.len() - i,
        {
            let k = expired[i];
            let ghost before = self@;
            let _ = slots_remove(&mut self.pcbs, k);
            assert(self@ =~= before.remove(k));
            i = i + 1;
            assert(expired@.subrange(0, i as int).to_set() =~= expired@.subrange(0, i as int - 1).to_set().insert(k)) by {
                assert(expired@.subrange(0, i as int) =~= expired@.subrange(0, i as int - 1).push(k));
                expired@.subrange(0, i as int - 1).lemma_push_to_set_commute(k);
            }
            assert(self@.dom() =~= old(self)@.dom().difference(expired@.subrange(0, i as int).to_set()));
        }
        assert(expired@.subrange(0, expired@.len() as int) =~= expired@);
        assert(self@ =~= old(self)@.restrict(
            old(self)@.dom().filter(|k: u64| !tcp_time_wait_expired(old(self)@[k], timestamp)),
        ));
    }
}

} // verus!
