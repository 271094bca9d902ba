pub mod addr;
pub mod header;
pub mod interface;
pub mod packet;
pub mod pseudo;
pub mod route;

use vstd::prelude::*;

use crate::interface::InterfaceOutputError;
use crate::os::{Random, Time};
use crate::protocol::arp::header::ArpError;
use crate::protocol::arp::{Arp, ArpOutputError, ArpResolveError};
use crate::protocol::ethernet::{EtherType, MacAddr};
use crate::protocol::icmp::{
    icmp_echo_reply_outcome, icmp_header_parse, icmp_message, Icmp, IcmpDestinationUnreachableCode,
    IcmpError, IcmpType, ICMP_HEADER_LEN,
};
use crate::protocol::wire::seq_from;
use crate::protocol::ipv4::addr::{is_any, Ipv4Addr};
use crate::protocol::ipv4::header::{Ipv4Error, Ipv4HeaderView, IP_HEADER_LEN};
use crate::protocol::ipv4::interface::{Ipv4Interface, Ipv4InterfaceView};
use crate::protocol::ipv4::packet::{ipv4_packet_parse, Ipv4Packet, Ipv4PacketView};
use crate::protocol::ipv4::route::{is_best_route, route_matches, Ipv4Route};
use crate::protocol::tcp::{tcp_input_outcome, Tcp, TcpInputError};
use crate::protocol::udp::header::UdpError;
use crate::protocol::udp::{udp_input_outcome, Udp};
use crate::slots::canonical_key;
use crate::device::registry::SentFrame;
use crate::protocol::arp::cache::{arp_expire, arp_hardware, arp_lookup, ArpEntry};
use crate::protocol::ipv4::header::ipv4_header_bytes;
use crate::protocol::ipv4::packet::ipv4_new_header;
use crate::protocol::ipv4::route::{best_route, routed_interface};
use crate::stack::Stack;

verus! {

/// Transport protocols carried in IPv4, by protocol number.
#[derive(Debug, Clone, Copy, PartialEq, Eq, Hash, Structural)]
pub enum Ipv4Protocol {
    Icmp,
    Tcp,
    Udp,
}

/// A protocol number that names no supported protocol.
#[derive(Debug, Clone, Copy, PartialEq, Eq, Structural)]
pub struct UnknownIpv4Protocol(pub u8);

impl Ipv4Protocol {
    /// The protocol number.
    pub open spec fn spec_value(self) -> u8 {
        match self {
            Ipv4Protocol::Icmp => 1,
            Ipv4Protocol::Tcp => 6,
            Ipv4Protocol::Udp => 17,
        }
    }

    /// The protocol number.
    pub fn value(self) -> (r: u8)
        ensures
            r == self.spec_value(),
    {
        match self {
            Ipv4Protocol::Icmp => 1,
            Ipv4Protocol::Tcp => 6,
            Ipv4Protocol::Udp => 17,
        }
    }
}

impl TryFrom<u8> for Ipv4Protocol {
    type Error = UnknownIpv4Protocol;

    fn try_from(value: u8) -> (r: Result<Ipv4Protocol, UnknownIpv4Protocol>) {
        if value == 1 {
            Ok(Ipv4Protocol::Icmp)
        } else if value == 6 {
            Ok(Ipv4Protocol::Tcp)
        } else if value == 17 {
            Ok(Ipv4Protocol::Udp)
        } else {
            Err(UnknownIpv4Protocol(value))
        }
    }
}

impl vstd::std_specs::convert::TryFromSpecImpl<u8> for Ipv4Protocol {
    open spec fn obeys_try_from_spec() -> bool {
        true
    }

    open spec fn try_from_spec(v: u8) -> Result<Ipv4Protocol, UnknownIpv4Protocol> {
        if v == 1 {
            Ok(Ipv4Protocol::Icmp)
        } else if v == 6 {
            Ok(Ipv4Protocol::Tcp)
        } else if v == 17 {
            Ok(Ipv4Protocol::Udp)
        } else {
            Err(UnknownIpv4Protocol(v))
        }
    }
}

/// Reading a protocol number back gives the protocol it names.
pub proof fn lemma_ipv4_protocol_roundtrip(p: Ipv4Protocol)
    ensures
        <Ipv4Protocol as vstd::std_specs::convert::TryFromSpec<u8>>::try_from_spec(p.spec_value())
            == Ok::<Ipv4Protocol, UnknownIpv4Protocol>(p),
{
}

/// Errors sending an IPv4 packet.
#[derive(Debug)]
pub enum Ipv4OutputError<E> {
    SourceRequiredForBroadcast,
    SourceNotOwned,
    DestinationUnreachable,
    ArpIncomplete,
    Arp(ArpOutputError),
    Interface(InterfaceOutputError),
    Packet(Ipv4Error),
    Random(E),
}

/// What went wrong handling a received frame.
#[derive(Debug)]
pub enum Ipv4InputError<E> {
    Packet(Ipv4Error),
    Arp(ArpError),
    Icmp(IcmpError),
    Udp(UdpError),
    Tcp(TcpInputError<E>),
    Unreachable(Ipv4OutputError<E>),
}

/// The address `255.255.255.255`.
pub open spec fn is_limited_broadcast(a: Ipv4Addr) -> bool {
    a@ == seq![255u8, 255, 255, 255]
}

/// The frame that carries the IPv4 packet of `protocol` from `source` to
/// `dest` with identification `id` around `data`, handed to the device
/// `device` for the link destination `link`.
pub open spec fn ipv4_frame(
    device: u64,
    protocol: u8,
    id: u16,
    source: Ipv4Addr,
    dest: Ipv4Addr,
    data: Seq<u8>,
    link: Option<Seq<u8>>,
) -> SentFrame {
    SentFrame {
        device,
        frame_type: 0x0800,
        data: ipv4_header_bytes(
            ipv4_new_header(protocol, id, source, dest),
            (IP_HEADER_LEN + data.len()) as u16,
        ) + data,
        destination: link,
    }
}

/// A link destination that a packet to `dest` through the interface `i`,
/// for the next hop `hop`, may go out with: none (a device without hardware
/// addresses); the broadcast address for a broadcast destination; or else
/// the hardware address that the ARP cache `cache` held for the next hop
/// when the clock read some time.
pub open spec fn ipv4_link_destination(
    cache: Seq<ArpEntry>,
    i: Ipv4InterfaceView,
    dest: Ipv4Addr,
    hop: Ipv4Addr,
    link: Option<Seq<u8>>,
) -> bool {
    ||| link is None
    ||| (dest == i.broadcast || is_limited_broadcast(dest)) && link == Some(
        seq![0xffu8, 0xff, 0xff, 0xff, 0xff, 0xff],
    )
    ||| !(dest == i.broadcast || is_limited_broadcast(dest)) && exists|now: u64| #[trigger]
        arp_hardware(arp_lookup(arp_expire(cache, now), hop)) matches Some(mac) && link == Some(mac@)
}

/// The source address of a packet from `src` through `i`: `src`, or the
/// interface's address when `src` is unspecified.
pub open spec fn packet_source(src: Ipv4Addr, i: Ipv4InterfaceView) -> Ipv4Addr {
    if is_any(src) {
        i.unicast
    } else {
        src
    }
}

/// The next hop toward `dest` on `route`: its gateway, or `dest` itself
/// when the route has none.
pub open spec fn next_hop(route: Ipv4Route, dest: Ipv4Addr) -> Ipv4Addr {
    if is_any(route@.nexthop) {
        dest
    } else {
        route@.nexthop
    }
}

/// The record of frames `sent` is that of `before` with one more frame: the
/// IPv4 packet of `protocol` around `data` to `dest`, from `src` or, when
/// that is unspecified, from the unicast address of the interface that the
/// route to `dest` names, with time to live 255, handed to that interface's
/// device with a link destination that [`ipv4_link_destination`] allows.
pub open spec fn ipv4_packet_sent(
    before: Stack,
    sent: Seq<SentFrame>,
    protocol: u8,
    data: Seq<u8>,
    src: Ipv4Addr,
    dest: Ipv4Addr,
) -> bool {
    match best_route(before.ipv4_routes@, dest) {
        None => false,
        Some(route) => match routed_interface(before.ipv4_routes@, before.interfaces@, dest) {
            None => false,
            Some(i) => {
                &&& i.device is Some
                &&& exists|id: u16, link: Option<Seq<u8>>|
                    #[trigger] ipv4_frame(
                        canonical_key(i.device->0@),
                        protocol,
                        id,
                        packet_source(src, i),
                        dest,
                        data,
                        link,
                    ) == sent.last() && ipv4_link_destination(
                        before.arp_cache@,
                        i,
                        dest,
                        next_hop(route, dest),
                        link,
                    )
                &&& sent == before.devices.sent().push(sent.last())
            },
        },
    }
}

/// `frame` carries the IPv4 packet of `protocol` around `data` to `dest`,
/// from `src` (the routed interface's address when unspecified), handed to
/// the device of the interface that the route to `dest` names; its link
/// destination is left open.
pub open spec fn ipv4_carries(
    routes: Seq<Ipv4Route>,
    interfaces: Map<u64, Ipv4InterfaceView>,
    frame: SentFrame,
    protocol: u8,
    data: Seq<u8>,
    src: Ipv4Addr,
    dest: Ipv4Addr,
) -> bool {
    match routed_interface(routes, interfaces, dest) {
        None => false,
        Some(i) => i.device is Some && exists|id: u16|
            #[trigger] ipv4_frame(
                canonical_key(i.device->0@),
                protocol,
                id,
                packet_source(src, i),
                dest,
                data,
                frame.destination,
            ) == frame,
    }
}

/// A packet sent as [`ipv4_packet_sent`] says is the one frame added, and
/// it carries the packet as [`ipv4_carries`] says.
pub proof fn lemma_sent_carries(
    before: Stack,
    sent: Seq<SentFrame>,
    protocol: u8,
    data: Seq<u8>,
    src: Ipv4Addr,
    dest: Ipv4Addr,
)
    requires
        ipv4_packet_sent(before, sent, protocol, data, src, dest),
    ensures
        sent == before.devices.sent().push(sent.last()),
        ipv4_carries(before.ipv4_routes@, before.interfaces@, sent.last(), protocol, data, src, dest),
{
    let i = routed_interface(before.ipv4_routes@, before.interfaces@, dest)->0;
    let route = best_route(before.ipv4_routes@, dest)->0;
    let (id, link) = choose|id: u16, link: Option<Seq<u8>>|
        #[trigger] ipv4_frame(
            canonical_key(i.device->0@),
            protocol,
            id,
            packet_source(src, i),
            dest,
            data,
            link,
        ) == sent.last() && ipv4_link_destination(before.arp_cache@, i, dest, next_hop(route, dest), link);
    assert(sent.last().destination == link);
    assert(ipv4_frame(canonical_key(i.device->0@), protocol, id, packet_source(src, i), dest, data, sent.last().destination) == sent.last());
}

/// The outcome [`Ipv4::output`] owes: the refusals decided by the source
/// address, the routes and the interfaces; past them, a payload too large
/// for a packet is refused (unless drawing the identification failed
/// first), and on success the length of the packet sent is given.
pub open spec fn ipv4_output_outcome<E>(
    routes: Seq<Ipv4Route>,
    interfaces: Map<u64, Ipv4InterfaceView>,
    interface: Ipv4InterfaceView,
    len: nat,
    src: Ipv4Addr,
    dest: Ipv4Addr,
    r: Result<usize, Ipv4OutputError<E>>,
) -> bool {
    if is_any(src) && is_limited_broadcast(dest) {
        r matches Err(Ipv4OutputError::SourceRequiredForBroadcast)
    } else if forall|i: int| 0 <= i < routes.len() ==> !route_matches(#[trigger] routes[i], dest) {
        r matches Err(Ipv4OutputError::DestinationUnreachable)
    } else {
        forall|i: int|
            #[trigger] is_best_route(routes, dest, i) ==> {
                let k = canonical_key(routes[i]@.interface@);
                if !interfaces.dom().contains(k) {
                    r matches Err(Ipv4OutputError::DestinationUnreachable)
                } else if interfaces[k].device != interface.device {
                    r matches Err(Ipv4OutputError::SourceNotOwned)
                } else if !is_any(src) && src != interfaces[k].unicast {
                    r matches Err(Ipv4OutputError::SourceNotOwned)
                } else {
                    &&& (r matches Ok(n) ==> n == IP_HEADER_LEN + len && n <= u16::MAX)
                    &&& IP_HEADER_LEN + len > u16::MAX ==> ((r matches Err(
                        Ipv4OutputError::Packet(e),
                    ) && e == Ipv4Error::PayloadTooLarge { len: len as usize }) || (r matches Err(
                        Ipv4OutputError::Random(_),
                    )))
                    &&& (r matches Err(Ipv4OutputError::Packet(_)) ==> IP_HEADER_LEN + len
                        > u16::MAX)
                    &&& !(r matches Err(Ipv4OutputError::SourceRequiredForBroadcast))
                    &&& !(r matches Err(Ipv4OutputError::SourceNotOwned))
                    &&& !(r matches Err(Ipv4OutputError::DestinationUnreachable))
                }
            }
    }
}

/// The packet view of `data` whose header `h` gives the total length `total`.
pub open spec fn received_packet(data: Seq<u8>, h: Ipv4HeaderView, total: int) -> Ipv4PacketView {
    Ipv4PacketView {
        header: h,
        payload: data.subrange(IP_HEADER_LEN as int, total),
        data: data.subrange(0, total),
    }
}

/// A packet that [`Ipv4Packet::parse`] read from `data` is the packet view
/// of `data` that its header and total length give.
proof fn lemma_parsed_packet(p: Ipv4PacketView, data: Seq<u8>)
    requires
        ipv4_packet_parse(data) == Ok::<(Ipv4HeaderView, int), Ipv4Error>((p.header, p.data.len() as int)),
        p.data == data.subrange(0, p.data.len() as int),
        p.payload == data.subrange(IP_HEADER_LEN as int, p.data.len() as int),
    ensures
        ipv4_packet_parse(data) matches Ok((h, total)) && p == received_packet(data, h, total),
{
}

/// A packet for `a` is meant for the interface: its unicast address, its
/// directed broadcast or the limited broadcast.
pub open spec fn interface_accepts(interface: Ipv4InterfaceView, a: Ipv4Addr) -> bool {
    a == interface.unicast || a == interface.broadcast || is_limited_broadcast(a)
}

/// What taking the valid `packet` (of `len` bytes as received) on
/// `interface` does to the stack `before`: a packet not meant for the
/// interface is ignored; ICMP, UDP and TCP go to their protocol, which
/// changes only its own table (ICMP and UDP none: a UDP datagram is only
/// checked), TCP as [`tcp_input_outcome`] says, answers included; a packet of another protocol is answered with a destination
/// unreachable message when it is long enough to quote, and is otherwise
/// ignored.
pub open spec fn ipv4_input_outcome<E>(
    before: Stack,
    after: Stack,
    interface: Ipv4InterfaceView,
    packet: Ipv4PacketView,
    len: nat,
    r: Result<(), Ipv4InputError<E>>,
) -> bool {
    let h = packet.header;
    if !interface_accepts(interface, h.dest) {
        r is Ok && after == before
    } else if h.protocol == Ipv4Protocol::Icmp.spec_value() {
        &&& after.same_tables(&before)
        &&& match icmp_header_parse(packet.payload) {
            Ok(m) => r is Ok && (m.type_value != IcmpType::Echo.spec_value() ==> after == before),
            Err(e) => r == Err::<(), Ipv4InputError<E>>(Ipv4InputError::Icmp(e)) && after == before,
        }
    } else if h.protocol == Ipv4Protocol::Udp.spec_value() {
        &&& after == before
        &&& match r {
            Ok(()) => udp_input_outcome(h.src, h.dest, packet.payload, Ok(())),
            Err(Ipv4InputError::Udp(e)) => udp_input_outcome(h.src, h.dest, packet.payload, Err(e)),
            _ => false,
        }
    } else if h.protocol == Ipv4Protocol::Tcp.spec_value() {
        &&& after.same_except_tcp(&before)
        &&& match r {
            Ok(u) => tcp_input_outcome(before, after, interface, packet, Ok::<(), TcpInputError<E>>(u)),
            Err(Ipv4InputError::Tcp(e)) => tcp_input_outcome(before, after, interface, packet, Err(e)),
            _ => false,
        }
    } else {
        &&& after.same_tables(&before)
        &&& len < IP_HEADER_LEN + ICMP_HEADER_LEN ==> r is Ok && after == before
        &&& r is Ok || r matches Err(Ipv4InputError::Unreachable(_))
    }
}

/// What receiving the IPv4 packet `data` on `interface` hands to the
/// devices, beyond what [`ipv4_input_outcome`] says of the tables: for a
/// packet meant for the interface, an echo request is answered as
/// [`icmp_echo_reply_outcome`] says (what TCP sends is part of
/// [`tcp_input_outcome`]); and a packet of an unknown protocol long enough to quote is answered, on success, with a
/// protocol-unreachable message from the interface's address to the
/// sender, quoting the first 28 bytes.
pub open spec fn ipv4_input_sends<E>(
    before: Stack,
    sent: Seq<SentFrame>,
    interface: Ipv4InterfaceView,
    data: Seq<u8>,
    r: Result<(), Ipv4InputError<E>>,
) -> bool {
    match ipv4_packet_parse(data) {
        Err(_) => true,
        Ok((h, total)) => {
            let packet = received_packet(data, h, total);
            let known = h.protocol == Ipv4Protocol::Icmp.spec_value() || h.protocol
                == Ipv4Protocol::Udp.spec_value() || h.protocol == Ipv4Protocol::Tcp.spec_value();
            interface_accepts(interface, h.dest) ==> {
                &&& h.protocol == Ipv4Protocol::Icmp.spec_value() ==> match icmp_header_parse(
                    packet.payload,
                ) {
                    Ok(m) => m.type_value == IcmpType::Echo.spec_value() ==> exists|
                        reply: Result<usize, Ipv4OutputError<E>>,
                    | #[trigger]
                        icmp_echo_reply_outcome(
                            before,
                            sent,
                            interface,
                            m.code,
                            m.dependent,
                            seq_from(packet.payload, ICMP_HEADER_LEN),
                            h.src,
                            reply,
                        ),
                    Err(_) => true,
                }
                &&& !known && data.len() >= IP_HEADER_LEN + ICMP_HEADER_LEN && r is Ok ==> ipv4_packet_sent(
                    before,
                    sent,
                    Ipv4Protocol::Icmp.spec_value(),
                    icmp_message(
                        IcmpType::DestinationUnreachable.spec_value(),
                        IcmpDestinationUnreachableCode::ProtocolUnreachable.spec_value(),
                        0,
                        data.subrange(0, 28),
                    ),
                    interface.unicast,
                    h.src,
                )
            }
        },
    }
}

/// IPv4 input and output.
pub struct Ipv4;

impl Ipv4 {
    /// Sends `data` as an IPv4 packet of `protocol` from `src` (the routed
    /// interface's address when unspecified) to `dest`, through the
    /// interface the route for `dest` names, which must be on the same
    /// device as `interface`; the link destination is the broadcast address
    /// for a broadcast, else what ARP resolves for the next hop.
    pub fn output<R: Random, T: Time>(
        stack: &mut Stack,
        interface: &Ipv4Interface,
        protocol: u8,
        data: &[u8],
        src: Ipv4Addr,
        dest: Ipv4Addr,
    ) -> (r: Result<usize, Ipv4OutputError<R::Error>>)
        requires
            old(stack).wf(),
        ensures
            old(stack).devices.sent().is_prefix_of(final(stack).devices.sent()),
            final(stack).devices.sent().len() <= old(stack).devices.sent().len() + 1,
            final(stack).wf(),
            final(stack).same_tables(old(stack)),
            ipv4_output_outcome(
                old(stack).ipv4_routes@,
                old(stack).interfaces@,
                interface@,
                data@.len(),
                src,
                dest,
                r,
            ),
            r is Ok ==> ipv4_packet_sent(*old(stack), final(stack).devices.sent(), protocol, data@, src, dest),
            r matches Err(e) && (e is SourceRequiredForBroadcast || e is SourceNotOwned
                || e is DestinationUnreachable || e is Random || e is Packet) ==> final(stack).devices.sent()
                == old(stack).devices.sent(),
    {
        let limited = Ipv4Addr::broadcast();
        proof {
            dest.lemma_view(limited);
        }
        if src.is_unspecified() && dest == limited {
            return Err(Ipv4OutputError::SourceRequiredForBroadcast);
        }
        let found = stack.ipv4_routes.lookup(dest);
        proof {
            crate::protocol::ipv4::route::lemma_lookup_is_best(stack.ipv4_routes@, dest, found);
        }
        let route = match found {
            Some(route) => route,
            None => {
                return Err(Ipv4OutputError::DestinationUnreachable);
            },
        };
        let ghost best = choose|i: int|
            is_best_route(stack.ipv4_routes@, dest, i) && stack.ipv4_routes@[i] == route;
        proof {
            crate::protocol::ipv4::route::lemma_best_route_unique(stack.ipv4_routes@, dest, best);
        }
        let routed = match stack.interfaces.interface_as(route.interface()) {
            Some(i) => i,
            None => {
                return Err(Ipv4OutputError::DestinationUnreachable);
            },
        };
        if routed.device() != interface.device() {
            return Err(Ipv4OutputError::SourceNotOwned);
        }
        if !src.is_unspecified() && src != routed.unicast() {
            return Err(Ipv4OutputError::SourceNotOwned);
        }
        let source = if src.is_unspecified() {
            routed.unicast()
        } else {
            src
        };
        let id = match R::random16() {
            Ok(id) => id,
            Err(e) => {
                return Err(Ipv4OutputError::Random(e));
            },
        };
        let packet = match Ipv4Packet::build(protocol, data, id, source, dest) {
            Ok(p) => p,
            Err(e) => {
                return Err(Ipv4OutputError::Packet(e));
            },
        };
        proof {
            crate::protocol::ipv4::header::lemma_header_checksum_valid(
                crate::protocol::ipv4::packet::ipv4_new_header(protocol, id, source, dest),
                (IP_HEADER_LEN + data@.len()) as u16,
            );
        }
        let ghost hop = next_hop(route, dest);
        assert(routed_interface(old(stack).ipv4_routes@, old(stack).interfaces@, dest) == Some(routed@));
        let link_destination: Option<MacAddr> = if routed.hardware_address(stack).is_some() {
            if dest == routed.broadcast() || dest == limited {
                Some(MacAddr::broadcast())
            } else {
                let nexthop = if route.nexthop().is_unspecified() {
                    dest
                } else {
                    route.nexthop()
                };
                let now = T::monotonic_time_seconds();
                match Arp::resolve(stack, &routed, nexthop, now) {
                    Ok(mac) => {
                        assert(nexthop == hop);
                        assert(arp_hardware(arp_lookup(arp_expire(old(stack).arp_cache@, now), hop))
                            == Some(mac));
                        Some(mac)
                    },
                    Err(ArpResolveError::Incomplete) => {
                        return Err(Ipv4OutputError::ArpIncomplete);
                    },
                    Err(ArpResolveError::Request(e)) => {
                        return Err(Ipv4OutputError::Arp(e));
                    },
                }
            }
        } else {
            None
        };
        let ghost link: Option<Seq<u8>> = match link_destination {
            Some(m) => Some(m@),
            None => None,
        };
        assert(ipv4_link_destination(old(stack).arp_cache@, routed@, dest, hop, link));
        let ghost sent_before = stack.devices.sent();
        let result = match link_destination {
            Some(mac) => {
                let bytes = mac.bytes();
                routed.output_raw(stack, EtherType::Ipv4.value(), packet.as_slice(), Some(bytes.as_slice()))
            },
            None => routed.output_raw(stack, EtherType::Ipv4.value(), packet.as_slice(), None),
        };
        match result {
            Ok(()) => {
                proof {
                    let frame = ipv4_frame(
                        canonical_key(routed@.device->0@),
                        protocol,
                        id,
                        source,
                        dest,
                        data@,
                        link,
                    );
                    assert(sent_before == old(stack).devices.sent());
                    assert(stack.devices.sent() == old(stack).devices.sent().push(frame));
                    assert(stack.devices.sent().last() == frame);
                    assert(ipv4_packet_sent(*old(stack), stack.devices.sent(), protocol, data@, src, dest));
                }
                Ok(packet.len())
            },
            Err(e) => Err(Ipv4OutputError::Interface(e)),
        }
    }

    /// Takes a received IPv4 packet: packets not for `interface` are
    /// ignored; ICMP, UDP and TCP go to their protocol; a packet of another
    /// protocol is answered with an ICMP destination unreachable message
    /// quoting its headers.
    pub fn input<R: Random, T: Time>(stack: &mut Stack, data: &[u8], interface: &Ipv4Interface) -> (r: Result<
        (),
        Ipv4InputError<R::Error>,
    >)
        requires
            old(stack).wf(),
        ensures
            final(stack).wf(),
            match ipv4_packet_parse(data@) {
                Err(e) => r == Err::<(), Ipv4InputError<R::Error>>(Ipv4InputError::Packet(e))
                    && *final(stack) == *old(stack),
                Ok((h, total)) => ipv4_input_outcome(
                    *old(stack),
                    *final(stack),
                    interface@,
                    received_packet(data@, h, total),
                    data@.len(),
                    r,
                ),
            },
            ipv4_input_sends(*old(stack), final(stack).devices.sent(), interface@, data@, r),
    {
        let packet = match Ipv4Packet::parse(data) {
            Ok(p) => p,
            Err(e) => {
                return Err(Ipv4InputError::Packet(e));
            },
        };
        let header = packet.header();
        let destination = header.dest().octets();
        proof {
            let d = header@.dest;
            let limited = Ipv4Addr::spec_from_seq(seq![255u8, 255, 255, 255]);
            Ipv4Addr::lemma_spec_from_seq(seq![255u8, 255, 255, 255]);
            d.lemma_view(interface@.unicast);
            d.lemma_view(interface@.broadcast);
            d.lemma_view(limited);
            lemma_parsed_packet(packet@, data@);
        }
        if !interface.accepts(destination.as_slice()) {
            return Ok(());
        }
        let protocol = header.protocol();
        let ghost pv = packet@;
        let r = if protocol == Ipv4Protocol::Icmp.value() {
            let r0 = match Icmp::input::<R, T>(stack, packet, interface) {
                Ok(()) => Ok(()),
                Err(e) => Err(Ipv4InputError::Icmp(e)),
            };
            assert(ipv4_input_outcome(*old(stack), *stack, interface@, pv, data@.len(), r0));
            r0
        } else if protocol == Ipv4Protocol::Udp.value() {
            let r0 = match Udp::input(packet) {
                Ok(()) => Ok(()),
                Err(e) => Err(Ipv4InputError::Udp(e)),
            };
            assert(ipv4_input_outcome(*old(stack), *stack, interface@, pv, data@.len(), r0));
            r0
        } else if protocol == Ipv4Protocol::Tcp.value() {
            let rt = Tcp::input::<R, T>(stack, packet, interface);
            let r0 = match rt {
                Ok(u) => Ok(u),
                Err(e) => Err(Ipv4InputError::Tcp(e)),
            };
            assert(ipv4_input_outcome(*old(stack), *stack, interface@, pv, data@.len(), r0));
            r0
        } else if data.len() >= IP_HEADER_LEN + ICMP_HEADER_LEN {
            let offending = vstd::slice::slice_subrange(data, 0, IP_HEADER_LEN + ICMP_HEADER_LEN);
            let r0 = match Icmp::destination_unreachable::<R, T>(stack, interface, offending, header.src()) {
                Ok(_) => Ok(()),
                Err(e) => Err(Ipv4InputError::Unreachable(e)),
            };
            assert(ipv4_input_outcome(*old(stack), *stack, interface@, pv, data@.len(), r0));
            r0
        } else {
            Ok(())
        };
        assert(ipv4_input_outcome(*old(stack), *stack, interface@, pv, data@.len(), r));
        r
    }
}

} // verus!
