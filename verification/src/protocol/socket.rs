use vstd::prelude::*;

use crate::os::{Random, Time};
use crate::protocol::ipv4::addr::{is_any, Ipv4Endpoint};
use crate::protocol::tcp::pcb::tcp_fresh_view;
use crate::protocol::tcp::registry::{tcp_bind_outcome, tcp_listen_outcome, TcpPcbError};
use crate::protocol::tcp::{
    tcp_accept_outcome, tcp_close_outcome, tcp_close_sent, tcp_connect_outcome, tcp_connect_sent, tcp_receive_outcome,
    tcp_send_outcome, tcp_send_sent, Tcp, TcpCloseError, TcpOpenError, TcpPcbKey, TcpReceiveError, TcpSendError,
};
use crate::protocol::udp::registry::{
    udp_bind_outcome, udp_recv_outcome, UdpPcbError, UdpPcbKey,
};
use crate::protocol::udp::{udp_send_outcome, Udp, UdpOutputError};
use crate::stack::Stack;
use crate::slots::{
    canonical_key, slot_entries, slots_get, slots_insert, slots_keys, slots_new, slots_remove,
    RegistryEntry, Slots,
};

verus! {

/// Stable key for a socket.
#[derive(Debug, Clone, Copy, PartialEq, Eq, Hash, Structural)]
pub struct SocketKey {
    id: u64,
}

impl View for SocketKey {
    type V = u64;

    closed spec fn view(&self) -> u64 {
        self.id
    }
}

impl SocketKey {
    pub(crate) fn from_id(id: u64) -> (r: SocketKey)
        ensures
            r@ == id,
    {
        SocketKey { id }
    }

    /// The number that identifies this key within its registry.
    pub fn id(&self) -> (r: u64)
        ensures
            r == self@,
    {
        self.id
    }
}

/// Address families of sockets.
#[derive(Debug, Clone, Copy, PartialEq, Eq, Structural)]
pub enum SocketDomain {
    Ipv4,
}

/// Socket types.
#[derive(Debug, Clone, Copy, PartialEq, Eq, Structural)]
pub enum SocketType {
    Stream,
    Datagram,
}

/// Transport protocols of sockets.
#[derive(Debug, Clone, Copy, PartialEq, Eq, Structural)]
pub enum SocketProtocol {
    Tcp,
    Udp,
}

/// The PCB a socket is backed by.
#[derive(Debug, Clone, Copy, PartialEq, Eq, Structural)]
pub enum SocketTransport {
    Tcp(TcpPcbKey),
    Udp(UdpPcbKey),
}

/// A socket: its domain, type and transport.
#[derive(Debug, Clone, Copy, PartialEq, Eq, Structural)]
pub struct SocketEntry {
    pub domain: SocketDomain,
    pub kind: SocketType,
    pub transport: SocketTransport,
}

/// The socket that a registry entry holds.
pub open spec fn socket_entry_view(e: RegistryEntry) -> SocketEntry {
    match e {
        RegistryEntry::Socket(s) => s,
        _ => arbitrary(),
    }
}

/// The sockets of the stack.
pub struct SocketRegistry {
    sockets: Slots,
}

impl View for SocketRegistry {
    type V = Map<u64, SocketEntry>;

    closed spec fn view(&self) -> Map<u64, SocketEntry> {
        slot_entries(self.sockets).map_values(|e: RegistryEntry| socket_entry_view(e))
    }
}

impl SocketRegistry {
    /// Every entry is a socket, and there are finitely many.
    pub closed spec fn wf(&self) -> bool {
        &&& slot_entries(self.sockets).dom().finite()
        &&& forall|k: u64| #[trigger]
            slot_entries(self.sockets).dom().contains(k) ==> slot_entries(self.sockets)[k] is Socket
    }

    pub fn new() -> (r: SocketRegistry)
        ensures
            r.wf(),
            r@ == Map::<u64, SocketEntry>::empty(),
    {
        let r = SocketRegistry { sockets: slots_new() };
        assert(r@ =~= Map::<u64, SocketEntry>::empty());
        r
    }

    /// The number of sockets.
    pub fn len(&self) -> (r: usize)
        requires
            self.wf(),
        ensures
            r == self@.len(),
    {
        let keys = slots_keys(&self.sockets);
        proof {
            assert(keys@.to_set() =~= self@.dom());
            keys@.unique_seq_to_set();
        }
        keys.len()
    }

    pub fn insert(&mut self, entry: SocketEntry) -> (r: SocketKey)
        requires
            old(self).wf(),
            old(self)@.len() < u32::MAX - 1,
        ensures
            final(self).wf(),
            !old(self)@.dom().contains(r@),
            canonical_key(r@) == r@,
            final(self)@ == old(self)@.insert(r@, entry),
    {
        proof {
            assert(slot_entries(self.sockets).dom() =~= self@.dom());
        }
        let id = slots_insert(&mut self.sockets, RegistryEntry::Socket(entry));
        assert(self@ =~= old(self)@.insert(id, entry));
        SocketKey::from_id(id)
    }

    pub fn get(&self, socket: SocketKey) -> (r: Option<SocketEntry>)
        requires
            self.wf(),
        ensures
            r == if self@.dom().contains(canonical_key(socket@)) {
                Some(self@[canonical_key(socket@)])
            } else {
                None
            },
    {
        match slots_get(&self.sockets, socket.id()) {
            Some(RegistryEntry::Socket(s)) => Some(*s),
            _ => None,
        }
    }

    pub fn remove(&mut self, socket: SocketKey) -> (r: Option<SocketEntry>)
        requires
            old(self).wf(),
        ensures
            final(self).wf(),
            r == if old(self)@.dom().contains(canonical_key(socket@)) {
                Some(old(self)@[canonical_key(socket@)])
            } else {
                None
            },
            final(self)@ == old(self)@.remove(canonical_key(socket@)),
    {
        let r = match slots_remove(&mut self.sockets, socket.id()) {
            Some(RegistryEntry::Socket(s)) => Some(s),
            _ => None,
        };
        assert(self@ =~= old(self)@.remove(canonical_key(socket@)));
        r
    }
}

/// Errors of socket operations.
#[derive(Debug)]
pub enum SocketError<E> {
    Domain,
    Type,
    Protocol,
    NotFound,
    TcpOpen(TcpOpenError<E>),
    TcpClose(TcpCloseError<E>),
    TcpSend(TcpSendError<E>),
    TcpReceive(TcpReceiveError),
    TcpPcb(TcpPcbError),
    UdpOutput(UdpOutputError<E>),
    UdpPcb(UdpPcbError),
}

/// The socket `socket` of `sockets`, if it exists.
pub open spec fn socket_of(sockets: Map<u64, SocketEntry>, socket: SocketKey) -> Option<SocketEntry> {
    if sockets.dom().contains(canonical_key(socket@)) {
        Some(sockets[canonical_key(socket@)])
    } else {
        None
    }
}

/// `after` is `before` once the listener `pcb` handed over a child for
/// `remote` (see [`tcp_accept_outcome`]) and the new socket `socket` of
/// `domain` was made for it.
pub open spec fn socket_accepted<E>(
    before: Stack,
    after: Stack,
    pcb: TcpPcbKey,
    domain: SocketDomain,
    socket: SocketKey,
    remote: Ipv4Endpoint,
) -> bool {
    exists|child: TcpPcbKey| #[trigger]
        tcp_accept_outcome::<E>(
            before,
            after,
            pcb,
            Ok::<Option<(TcpPcbKey, Ipv4Endpoint)>, TcpOpenError<E>>(Some((child, remote))),
        ) && !before.sockets@.dom().contains(socket@) && after.sockets@ == before.sockets@.insert(
            socket@,
            SocketEntry { domain, kind: SocketType::Stream, transport: SocketTransport::Tcp(child) },
        )
}

/// The Berkeley-style socket interface of a stack.
pub struct Socket;

impl Socket {
    /// Opens a socket: a stream socket over TCP or a datagram socket over
    /// UDP; another pairing of type and protocol is refused.
    pub fn open<E>(stack: &mut Stack, domain: SocketDomain, kind: SocketType, protocol: Option<SocketProtocol>) -> (r:
        Result<SocketKey, SocketError<E>>)
        requires
            old(stack).wf(),
            old(stack).sockets@.len() < u32::MAX - 1,
            old(stack).tcp_pcbs@.len() < u32::MAX - 1,
            old(stack).udp_pcbs@.len() < u32::MAX - 1,
        ensures
            final(stack).wf(),
            match r {
                Ok(k) => {
                    &&& !old(stack).sockets@.dom().contains(k@)
                    &&& canonical_key(k@) == k@
                    &&& final(stack).sockets@ == old(stack).sockets@.insert(k@, final(stack).sockets@[k@])
                    &&& final(stack).sockets@[k@].kind == kind
                    &&& final(stack).sockets@[k@].domain == domain
                    &&& match final(stack).sockets@[k@].transport {
                        SocketTransport::Tcp(p) => {
                            &&& kind == SocketType::Stream
                            &&& !old(stack).tcp_pcbs@.dom().contains(p@)
                            &&& canonical_key(p@) == p@
                            &&& final(stack).tcp_pcbs@ == old(stack).tcp_pcbs@.insert(p@, tcp_fresh_view())
                            &&& final(stack).udp_pcbs@ == old(stack).udp_pcbs@
                        },
                        SocketTransport::Udp(p) => {
                            let fresh = final(stack).udp_pcbs@[p@];
                            &&& kind == SocketType::Datagram
                            &&& !old(stack).udp_pcbs@.dom().contains(p@)
                            &&& canonical_key(p@) == p@
                            &&& final(stack).udp_pcbs@ == old(stack).udp_pcbs@.insert(p@, fresh)
                            &&& is_any(fresh.local.spec_address()) && fresh.local.spec_port() == 0
                            &&& fresh.queue.len() == 0
                            &&& final(stack).tcp_pcbs@ == old(stack).tcp_pcbs@
                        },
                    }
                },
                Err(e) => e is Protocol && *final(stack) == *old(stack),
            },
            (r is Err) <==> ((kind == SocketType::Stream && protocol == Some(SocketProtocol::Udp)) || (
            kind == SocketType::Datagram && protocol == Some(SocketProtocol::Tcp))),
    {
        let transport = match kind {
            SocketType::Stream => {
                match protocol {
                    Some(SocketProtocol::Udp) => {
                        return Err(SocketError::Protocol);
                    },
                    _ => SocketTransport::Tcp(stack.tcp_pcbs.open()),
                }
            },
            SocketType::Datagram => {
                match protocol {
                    Some(SocketProtocol::Tcp) => {
                        return Err(SocketError::Protocol);
                    },
                    _ => SocketTransport::Udp(stack.udp_pcbs.open()),
                }
            },
        };
        let key = stack.sockets.insert(SocketEntry { domain, kind, transport });
        Ok(key)
    }

    /// Closes a socket and its PCB.
    pub fn close<R: Random, T: Time>(stack: &mut Stack, socket: SocketKey) -> (r: Result<(), SocketError<R::Error>>)
        requires
            old(stack).wf(),
        ensures
            final(stack).wf(),
            final(stack).sockets@ == old(stack).sockets@.remove(canonical_key(socket@)),
            match socket_of(old(stack).sockets@, socket) {
                None => r matches Err(SocketError::NotFound) && final(stack).tcp_pcbs@
                    == old(stack).tcp_pcbs@ && final(stack).udp_pcbs@ == old(stack).udp_pcbs@,
                Some(e) => match e.transport {
                    SocketTransport::Tcp(p) => final(stack).udp_pcbs@ == old(stack).udp_pcbs@ && match r {
                        Ok(u) => tcp_close_outcome(
                            old(stack).tcp_pcbs@,
                            final(stack).tcp_pcbs@,
                            p,
                            Ok::<(), TcpCloseError<R::Error>>(u),
                        ) && tcp_close_sent(
                            *old(stack),
                            final(stack).devices.sent(),
                            p,
                            Ok::<(), TcpCloseError<R::Error>>(u),
                        ),
                        Err(SocketError::TcpClose(x)) => tcp_close_outcome(
                            old(stack).tcp_pcbs@,
                            final(stack).tcp_pcbs@,
                            p,
                            Err(x),
                        ) && tcp_close_sent(*old(stack), final(stack).devices.sent(), p, Err(x)),
                        _ => false,
                    },
                    SocketTransport::Udp(p) => final(stack).tcp_pcbs@ == old(stack).tcp_pcbs@ && match r {
                        Ok(_) => old(stack).udp_pcbs@.dom().contains(canonical_key(p@))
                            && final(stack).udp_pcbs@ == old(stack).udp_pcbs@.remove(canonical_key(p@)),
                        Err(SocketError::UdpPcb(x)) => x == UdpPcbError::NotFound
                            && !old(stack).udp_pcbs@.dom().contains(canonical_key(p@))
                            && final(stack).udp_pcbs@ == old(stack).udp_pcbs@,
                        _ => false,
                    },
                },
            },
    {
        let entry = match stack.sockets.remove(socket) {
            Some(e) => e,
            None => {
                return Err(SocketError::NotFound);
            },
        };
        let ghost sockets = stack.sockets@;
        match entry.transport {
            SocketTransport::Tcp(pcb) => {
                match Tcp::close::<R, T>(stack, pcb) {
                    Ok(u) => Ok(u),
                    Err(e) => Err(SocketError::TcpClose(e)),
                }
            },
            SocketTransport::Udp(pcb) => {
                match stack.udp_pcbs.close(pcb) {
                    Ok(u) => Ok(u),
                    Err(e) => Err(SocketError::UdpPcb(e)),
                }
            },
        }
    }

    /// Binds a socket's PCB to `local`.
    pub fn bind<E>(stack: &mut Stack, socket: SocketKey, local: Ipv4Endpoint) -> (r: Result<(), SocketError<E>>)
        requires
            old(stack).wf(),
        ensures
            final(stack).wf(),
            final(stack).sockets@ == old(stack).sockets@,
            match socket_of(old(stack).sockets@, socket) {
                None => r matches Err(SocketError::NotFound) && *final(stack) == *old(stack),
                Some(e) => match e.transport {
                    SocketTransport::Tcp(p) => final(stack).udp_pcbs@ == old(stack).udp_pcbs@ && match r {
                        Ok(u) => tcp_bind_outcome(
                            old(stack).tcp_pcbs@,
                            final(stack).tcp_pcbs@,
                            p,
                            local,
                            Ok::<(), TcpPcbError>(u),
                        ),
                        Err(SocketError::TcpPcb(x)) => tcp_bind_outcome(
                            old(stack).tcp_pcbs@,
                            final(stack).tcp_pcbs@,
                            p,
                            local,
                            Err(x),
                        ),
                        _ => false,
                    },
                    SocketTransport::Udp(p) => final(stack).tcp_pcbs@ == old(stack).tcp_pcbs@ && match r {
                        Ok(u) => udp_bind_outcome(
                            old(stack).udp_pcbs@,
                            final(stack).udp_pcbs@,
                            p,
                            local,
                            Ok::<(), UdpPcbError>(u),
                        ),
                        Err(SocketError::UdpPcb(x)) => udp_bind_outcome(
                            old(stack).udp_pcbs@,
                            final(stack).udp_pcbs@,
                            p,
                            local,
                            Err(x),
                        ),
                        _ => false,
                    },
                },
            },
    {
        let entry = match stack.sockets.get(socket) {
            Some(e) => e,
            None => {
                return Err(SocketError::NotFound);
            },
        };
        match entry.transport {
            SocketTransport::Tcp(pcb) => {
                match Tcp::bind(stack, pcb, local) {
                    Ok(u) => Ok(u),
                    Err(e) => Err(SocketError::TcpPcb(e)),
                }
            },
            SocketTransport::Udp(pcb) => {
                match stack.udp_pcbs.bind(pcb, local) {
                    Ok(u) => Ok(u),
                    Err(e) => Err(SocketError::UdpPcb(e)),
                }
            },
        }
    }

    /// Makes a stream socket listen.
    pub fn listen<E>(stack: &mut Stack, socket: SocketKey, backlog: usize) -> (r: Result<(), SocketError<E>>)
        requires
            old(stack).wf(),
        ensures
            final(stack).wf(),
            final(stack).sockets@ == old(stack).sockets@,
            match socket_of(old(stack).sockets@, socket) {
                None => r matches Err(SocketError::NotFound) && *final(stack) == *old(stack),
                Some(e) => match e.transport {
                    SocketTransport::Tcp(p) if e.kind == SocketType::Stream => match r {
                        Ok(u) => tcp_listen_outcome(
                            old(stack).tcp_pcbs@,
                            final(stack).tcp_pcbs@,
                            p,
                            backlog,
                            Ok::<(), TcpPcbError>(u),
                        ),
                        Err(SocketError::TcpPcb(x)) => tcp_listen_outcome(
                            old(stack).tcp_pcbs@,
                            final(stack).tcp_pcbs@,
                            p,
                            backlog,
                            Err(x),
                        ),
                        _ => false,
                    },
                    _ => r matches Err(SocketError::Type) && *final(stack) == *old(stack),
                },
            },
            final(stack).same_except_tcp(old(stack)),
    {
        let entry = match stack.sockets.get(socket) {
            Some(e) => e,
            None => {
                return Err(SocketError::NotFound);
            },
        };
        if entry.kind != SocketType::Stream {
            return Err(SocketError::Type);
        }
        match entry.transport {
            SocketTransport::Tcp(pcb) => {
                match Tcp::listen(stack, pcb, backlog) {
                    Ok(u) => Ok(u),
                    Err(e) => Err(SocketError::TcpPcb(e)),
                }
            },
            SocketTransport::Udp(_) => Err(SocketError::Type),
        }
    }

    /// Takes an established connection from a listening stream socket as a
    /// new socket; `None` while none waits, so that the caller may wait and
    /// try again.
    pub fn accept<E>(stack: &mut Stack, socket: SocketKey) -> (r: Result<Option<(SocketKey, Ipv4Endpoint)>, SocketError<E>>)
        requires
            old(stack).wf(),
            old(stack).sockets@.len() < u32::MAX - 1,
        ensures
            final(stack).wf(),
            final(stack).same_except_tcp_and_sockets(old(stack)),
            match socket_of(old(stack).sockets@, socket) {
                None => r matches Err(SocketError::NotFound) && *final(stack) == *old(stack),
                Some(e) => match e.transport {
                    SocketTransport::Tcp(p) => if e.kind != SocketType::Stream {
                        r matches Err(SocketError::Type) && *final(stack) == *old(stack)
                    } else {
                        match r {
                        Ok(None) => tcp_accept_outcome(
                            *old(stack),
                            *final(stack),
                            p,
                            Ok::<Option<(TcpPcbKey, Ipv4Endpoint)>, TcpOpenError<E>>(None),
                        ) && final(stack).sockets@ == old(stack).sockets@,
                        Ok(Some((k, remote))) => socket_accepted::<E>(
                            *old(stack),
                            *final(stack),
                            p,
                            e.domain,
                            k,
                            remote,
                        ),
                        Err(SocketError::TcpOpen(x)) => tcp_accept_outcome(
                            *old(stack),
                            *final(stack),
                            p,
                            Err(x),
                        ) && final(stack).sockets@ == old(stack).sockets@,
                        _ => false,
                    }
                    },
                    SocketTransport::Udp(_) => r matches Err(SocketError::Type) && *final(stack)
                        == *old(stack),
                },
            },
    {
        let entry = match stack.sockets.get(socket) {
            Some(e) => e,
            None => {
                return Err(SocketError::NotFound);
            },
        };
        if entry.kind != SocketType::Stream {
            return Err(SocketError::Type);
        }
        let pcb = match entry.transport {
            SocketTransport::Tcp(pcb) => pcb,
            SocketTransport::Udp(_) => {
                return Err(SocketError::Type);
            },
        };
        let ghost sockets = stack.sockets@;
        let (accepted, remote) = match Tcp::accept(stack, pcb) {
            Ok(Some(found)) => found,
            Ok(None) => {
                return Ok(None);
            },
            Err(e) => {
                return Err(SocketError::TcpOpen(e));
            },
        };
        let ghost accepted_stack = *stack;
        let child = stack.sockets.insert(
            SocketEntry {
                domain: entry.domain,
                kind: SocketType::Stream,
                transport: SocketTransport::Tcp(accepted),
            },
        );
        assert(tcp_accept_outcome(
            *old(stack),
            *stack,
            pcb,
            Ok::<Option<(TcpPcbKey, Ipv4Endpoint)>, TcpOpenError<E>>(Some((accepted, remote))),
        ));
        assert(!old(stack).sockets@.dom().contains(child@));
        assert(stack.sockets@ == old(stack).sockets@.insert(
            child@,
            SocketEntry {
                domain: entry.domain,
                kind: SocketType::Stream,
                transport: SocketTransport::Tcp(accepted),
            },
        ));
        assert(socket_of(old(stack).sockets@, socket) == Some(entry));
        Ok(Some((child, remote)))
    }

    /// Starts connecting a stream socket to `remote`; the caller then waits
    /// with [`Tcp::poll_connect`] on its PCB.
    pub fn connect<R: Random, T: Time>(stack: &mut Stack, socket: SocketKey, remote: Ipv4Endpoint) -> (r: Result<
        (),
        SocketError<R::Error>,
    >)
        requires
            old(stack).wf(),
        ensures
            final(stack).wf(),
            final(stack).sockets@ == old(stack).sockets@,
            final(stack).same_except_tcp(old(stack)),
            match socket_of(old(stack).sockets@, socket) {
                None => r matches Err(SocketError::NotFound) && *final(stack) == *old(stack),
                Some(e) => match e.transport {
                    SocketTransport::Tcp(p) => match r {
                        Ok(u) => tcp_connect_outcome(
                            *old(stack),
                            *final(stack),
                            p,
                            remote,
                            Ok::<(), TcpOpenError<R::Error>>(u),
                        ) && tcp_connect_sent(*old(stack), *final(stack), p, Ok::<(), TcpOpenError<R::Error>>(u)),
                        Err(SocketError::TcpOpen(x)) => tcp_connect_outcome(
                            *old(stack),
                            *final(stack),
                            p,
                            remote,
                            Err(x),
                        ) && tcp_connect_sent(*old(stack), *final(stack), p, Err(x)),
                        _ => false,
                    },
                    SocketTransport::Udp(_) => r matches Err(SocketError::Type) && *final(stack)
                        == *old(stack),
                },
            },
    {
        let entry = match stack.sockets.get(socket) {
            Some(e) => e,
            None => {
                return Err(SocketError::NotFound);
            },
        };
        match entry.transport {
            SocketTransport::Tcp(pcb) => {
                match Tcp::connect::<R, T>(stack, pcb, remote) {
                    Ok(u) => Ok(u),
                    Err(e) => Err(SocketError::TcpOpen(e)),
                }
            },
            SocketTransport::Udp(_) => Err(SocketError::Type),
        }
    }

    /// Reads from a stream socket: see [`Tcp::receive`].
    pub fn recv<E>(stack: &mut Stack, socket: SocketKey, buffer: &mut [u8]) -> (r: Result<Option<usize>, SocketError<E>>)
        requires
            old(stack).wf(),
        ensures
            final(stack).wf(),
            final(stack).sockets@ == old(stack).sockets@,
            final(stack).same_except_tcp(old(stack)),
            match socket_of(old(stack).sockets@, socket) {
                None => r matches Err(SocketError::NotFound) && *final(stack) == *old(stack)
                    && final(buffer)@ == old(buffer)@,
                Some(e) => match e.transport {
                    SocketTransport::Tcp(p) => match r {
                        Ok(v) => tcp_receive_outcome(
                            old(stack).tcp_pcbs@,
                            final(stack).tcp_pcbs@,
                            p,
                            old(buffer)@,
                            final(buffer)@,
                            Ok(v),
                        ),
                        Err(SocketError::TcpReceive(x)) => tcp_receive_outcome(
                            old(stack).tcp_pcbs@,
                            final(stack).tcp_pcbs@,
                            p,
                            old(buffer)@,
                            final(buffer)@,
                            Err(x),
                        ),
                        _ => false,
                    },
                    SocketTransport::Udp(_) => r matches Err(SocketError::Type) && *final(stack)
                        == *old(stack) && final(buffer)@ == old(buffer)@,
                },
            },
    {
        let entry = match stack.sockets.get(socket) {
            Some(e) => e,
            None => {
                return Err(SocketError::NotFound);
            },
        };
        match entry.transport {
            SocketTransport::Tcp(pcb) => {
                match Tcp::receive(stack, pcb, buffer) {
                    Ok(n) => Ok(n),
                    Err(e) => Err(SocketError::TcpReceive(e)),
                }
            },
            SocketTransport::Udp(_) => Err(SocketError::Type),
        }
    }

    /// Writes to a stream socket: see [`Tcp::send`].
    pub fn send<R: Random, T: Time>(stack: &mut Stack, socket: SocketKey, data: &[u8]) -> (r: Result<
        usize,
        SocketError<R::Error>,
    >)
        requires
            old(stack).wf(),
        ensures
            final(stack).wf(),
            final(stack).sockets@ == old(stack).sockets@,
            final(stack).same_except_tcp(old(stack)),
            match socket_of(old(stack).sockets@, socket) {
                None => r matches Err(SocketError::NotFound) && *final(stack) == *old(stack),
                Some(e) => match e.transport {
                    SocketTransport::Tcp(p) => match r {
                        Ok(n) => tcp_send_outcome(
                            old(stack).tcp_pcbs@,
                            final(stack).tcp_pcbs@,
                            p,
                            data@,
                            Ok::<usize, TcpSendError<R::Error>>(n),
                        ),
                        Err(SocketError::TcpSend(x)) => tcp_send_outcome(
                            old(stack).tcp_pcbs@,
                            final(stack).tcp_pcbs@,
                            p,
                            data@,
                            Err(x),
                        ),
                        _ => false,
                    },
                    SocketTransport::Udp(_) => r matches Err(SocketError::Type) && *final(stack)
                        == *old(stack),
                },
            },
            match socket_of(old(stack).sockets@, socket) {
                Some(SocketEntry { transport: SocketTransport::Tcp(p), .. }) => match r {
                    Ok(n) => tcp_send_sent(
                        *old(stack),
                        final(stack).devices.sent(),
                        p,
                        data@,
                        Ok::<usize, TcpSendError<R::Error>>(n),
                    ),
                    Err(SocketError::TcpSend(x)) => tcp_send_sent(
                        *old(stack),
                        final(stack).devices.sent(),
                        p,
                        data@,
                        Err(x),
                    ),
                    _ => false,
                },
                _ => final(stack).devices.sent() == old(stack).devices.sent(),
            },
    {
        let entry = match stack.sockets.get(socket) {
            Some(e) => e,
            None => {
                return Err(SocketError::NotFound);
            },
        };
        match entry.transport {
            SocketTransport::Tcp(pcb) => {
                match Tcp::send::<R, T>(stack, pcb, data) {
                    Ok(n) => Ok(n),
                    Err(e) => Err(SocketError::TcpSend(e)),
                }
            },
            SocketTransport::Udp(_) => Err(SocketError::Type),
        }
    }

    /// Reads a datagram from a datagram socket: see [`Udp::recv_from`].
    pub fn recv_from<E>(stack: &mut Stack, socket: SocketKey, buffer: &mut [u8]) -> (r: Result<
        Option<(usize, Ipv4Endpoint)>,
        SocketError<E>,
    >)
        requires
            old(stack).wf(),
        ensures
            final(stack).wf(),
            final(stack).sockets@ == old(stack).sockets@,
            final(stack).same_except_udp(old(stack)),
            match socket_of(old(stack).sockets@, socket) {
                None => r matches Err(SocketError::NotFound) && *final(stack) == *old(stack)
                    && final(buffer)@ == old(buffer)@,
                Some(e) => match e.transport {
                    SocketTransport::Udp(p) => match r {
                        Ok(v) => udp_recv_outcome(
                            old(stack).udp_pcbs@,
                            final(stack).udp_pcbs@,
                            p,
                            old(buffer)@,
                            final(buffer)@,
                            Ok(v),
                        ),
                        Err(SocketError::UdpPcb(x)) => udp_recv_outcome(
                            old(stack).udp_pcbs@,
                            final(stack).udp_pcbs@,
                            p,
                            old(buffer)@,
                            final(buffer)@,
                            Err(x),
                        ),
                        _ => false,
                    },
                    SocketTransport::Tcp(_) => r matches Err(SocketError::Type) && *final(stack)
                        == *old(stack) && final(buffer)@ == old(buffer)@,
                },
            },
    {
        let entry = match stack.sockets.get(socket) {
            Some(e) => e,
            None => {
                return Err(SocketError::NotFound);
            },
        };
        match entry.transport {
            SocketTransport::Udp(pcb) => {
                match Udp::recv_from(stack, pcb, buffer) {
                    Ok(v) => Ok(v),
                    Err(e) => Err(SocketError::UdpPcb(e)),
                }
            },
            SocketTransport::Tcp(_) => Err(SocketError::Type),
        }
    }

    /// Sends a datagram from a datagram socket: see [`Udp::send_to`].
    pub fn send_to<R: Random, T: Time>(stack: &mut Stack, socket: SocketKey, data: &[u8], remote: Ipv4Endpoint) -> (r:
        Result<usize, SocketError<R::Error>>)
        requires
            old(stack).wf(),
        ensures
            final(stack).wf(),
            final(stack).sockets@ == old(stack).sockets@,
            final(stack).same_except_udp(old(stack)),
            match socket_of(old(stack).sockets@, socket) {
                None => r matches Err(SocketError::NotFound) && *final(stack) == *old(stack),
                Some(e) => match e.transport {
                    SocketTransport::Udp(p) => match r {
                        Ok(n) => udp_send_outcome(
                            *old(stack),
                            *final(stack),
                            p,
                            data@,
                            remote,
                            Ok::<usize, UdpOutputError<R::Error>>(n),
                        ),
                        Err(SocketError::UdpOutput(x)) => udp_send_outcome(
                            *old(stack),
                            *final(stack),
                            p,
                            data@,
                            remote,
                            Err(x),
                        ),
                        _ => false,
                    },
                    SocketTransport::Tcp(_) => r matches Err(SocketError::Type) && *final(stack)
                        == *old(stack),
                },
            },
    {
        let entry = match stack.sockets.get(socket) {
            Some(e) => e,
            None => {
                return Err(SocketError::NotFound);
            },
        };
        match entry.transport {
            SocketTransport::Udp(pcb) => {
                match Udp::send_to::<R, T>(stack, pcb, data, remote) {
                    Ok(n) => Ok(n),
                    Err(e) => Err(SocketError::UdpOutput(e)),
                }
            },
            SocketTransport::Tcp(_) => Err(SocketError::Type),
        }
    }
}


/// Closing a datagram socket right after it was opened undoes the opening:
/// the close succeeds, and the sockets and the UDP PCBs are again those
/// from before the open.
pub proof fn lemma_datagram_close_undoes_open<E>(
    before: Stack,
    opened: Stack,
    closed: Stack,
    socket: SocketKey,
    pcb: UdpPcbKey,
    r: Result<(), SocketError<E>>,
)
    requires
        !before.sockets@.dom().contains(socket@),
        canonical_key(socket@) == socket@,
        opened.sockets@ == before.sockets@.insert(socket@, opened.sockets@[socket@]),
        opened.sockets@[socket@].transport == SocketTransport::Udp(pcb),
        !before.udp_pcbs@.dom().contains(pcb@),
        canonical_key(pcb@) == pcb@,
        opened.udp_pcbs@ == before.udp_pcbs@.insert(pcb@, opened.udp_pcbs@[pcb@]),
        closed.sockets@ == opened.sockets@.remove(canonical_key(socket@)),
        match r {
            Ok(_) => opened.udp_pcbs@.dom().contains(canonical_key(pcb@)) && closed.udp_pcbs@
                == opened.udp_pcbs@.remove(canonical_key(pcb@)),
            Err(SocketError::UdpPcb(x)) => x == UdpPcbError::NotFound
                && !opened.udp_pcbs@.dom().contains(canonical_key(pcb@)) && closed.udp_pcbs@
                == opened.udp_pcbs@,
            _ => false,
        },
    ensures
        r is Ok,
        closed.sockets@ == before.sockets@,
        closed.udp_pcbs@ == before.udp_pcbs@,
{
    assert(closed.sockets@ =~= before.sockets@);
    assert(closed.udp_pcbs@ =~= before.udp_pcbs@);
}

} // verus!
