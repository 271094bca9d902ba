pub mod header;
pub mod packet;
pub mod registry;

use vstd::prelude::*;

use crate::os::{Random, Time};
use crate::protocol::ipv4::addr::{is_any, Ipv4Addr, Ipv4Endpoint};
use crate::protocol::ipv4::interface::Ipv4InterfaceView;
use crate::protocol::ipv4::packet::Ipv4Packet;
use crate::protocol::ipv4::route::{lemma_lookup_is_best, routed_interface};
use crate::protocol::ipv4::{ipv4_output_outcome, ipv4_packet_sent, Ipv4, Ipv4OutputError, Ipv4Protocol};
use crate::protocol::udp::header::UdpError;
use crate::protocol::udp::packet::{udp_datagram, udp_packet_parse, UdpPacket};
use crate::protocol::udp::registry::{udp_assign_outcome, udp_recv_outcome, UdpPcbError, UdpPcbKey};
use crate::stack::Stack;

verus! {

/// Length of the UDP header in bytes.
pub const UDP_HEADER_LEN: usize = 8;

/// Errors sending a datagram.
#[derive(Debug)]
pub enum UdpOutputError<E> {
    Pcb(UdpPcbError),
    NetworkUnavailable,
    Packet(UdpError),
    Ipv4(Ipv4OutputError<E>),
}

/// What checking the UDP datagram `data` (carried from `src` to `dest`)
/// gives: the parse error of an invalid datagram, and `Ok` otherwise.
pub open spec fn udp_input_outcome(src: Ipv4Addr, dest: Ipv4Addr, data: Seq<u8>, r: Result<(), UdpError>) -> bool {
    match udp_packet_parse(src, dest, data) {
        Err(e) => r == Err::<(), UdpError>(e),
        Ok(_) => r is Ok,
    }
}

/// The endpoint a datagram from `local` leaves from through `interface`:
/// an unspecified address becomes the interface's.
pub open spec fn udp_source(local: Ipv4Endpoint, interface: Ipv4InterfaceView) -> Ipv4Endpoint {
    if is_any(local.spec_address()) {
        Ipv4Endpoint::spec_new(interface.unicast, local.spec_port())
    } else {
        local
    }
}

/// What sending `data` to `remote` from `pcb` does: the PCB gets an
/// ephemeral port where it has none (see [`udp_assign_outcome`]); then,
/// through the interface that the route to `remote` names (refused
/// without one), a datagram from the PCB's endpoint (its address that of
/// the interface when unspecified) goes out as [`ipv4_output_outcome`]
/// says; what is sent is the whole of `data`, handed to the device as
/// [`ipv4_packet_sent`] says.
pub open spec fn udp_send_outcome<E>(
    before: Stack,
    after: Stack,
    pcb: UdpPcbKey,
    data: Seq<u8>,
    remote: Ipv4Endpoint,
    r: Result<usize, UdpOutputError<E>>,
) -> bool {
    exists|assigned: Result<Ipv4Endpoint, UdpPcbError>| #[trigger]
        udp_assign_outcome(before.udp_pcbs@, after.udp_pcbs@, pcb, assigned) && match assigned {
            Err(e) => r == Err::<usize, UdpOutputError<E>>(UdpOutputError::Pcb(e)),
            Ok(local) => match routed_interface(
                before.ipv4_routes@,
                before.interfaces@,
                remote.spec_address(),
            ) {
                None => r == Err::<usize, UdpOutputError<E>>(UdpOutputError::NetworkUnavailable),
                Some(i) => {
                    let source = udp_source(local, i);
                    if UDP_HEADER_LEN + data.len() > u16::MAX {
                        r == Err::<usize, UdpOutputError<E>>(
                            UdpOutputError::Packet(UdpError::PayloadTooLarge { len: data.len() as usize }),
                        )
                    } else {
                        &&& r matches Ok(n) ==> n == data.len()
                        &&& r is Ok ==> ipv4_packet_sent(
                            before,
                            after.devices.sent(),
                            Ipv4Protocol::Udp.spec_value(),
                            udp_datagram(source, remote, data),
                            source.spec_address(),
                            remote.spec_address(),
                        )
                        &&& exists|sent: Result<usize, Ipv4OutputError<E>>| #[trigger]
                            ipv4_output_outcome(
                                before.ipv4_routes@,
                                before.interfaces@,
                                i,
                                udp_datagram(source, remote, data).len(),
                                source.spec_address(),
                                remote.spec_address(),
                                sent,
                            ) && (sent is Ok <==> r is Ok) && (sent matches Err(e) ==> r
                                == Err::<usize, UdpOutputError<E>>(UdpOutputError::Ipv4(e)))
                    }
                },
            },
        }
}

/// UDP protocol operations.
pub struct Udp;

impl Udp {
    /// Checks the UDP datagram that `packet` carries: its length fields and
    /// its checksum. Input changes nothing else; datagrams reach a PCB's
    /// queue only through [`UdpPcbRegistry::enqueue`].
    ///
    /// [`UdpPcbRegistry::enqueue`]: crate::protocol::udp::registry::UdpPcbRegistry::enqueue
    pub fn input(packet: Ipv4Packet<'_>) -> (r: Result<(), UdpError>)
        ensures
            udp_input_outcome(packet@.header.src, packet@.header.dest, packet@.payload, r),
    {
        match UdpPacket::from_ipv4(packet) {
            Ok(_) => Ok(()),
            Err(e) => Err(e),
        }
    }

    /// Sends `data` to `remote` from `pcb`, which gets an ephemeral port
    /// when it has none; an unspecified local address becomes the address
    /// of the interface the route for `remote` names. Gives the number of
    /// bytes of data sent.
    pub fn send_to<R: Random, T: Time>(stack: &mut Stack, pcb: UdpPcbKey, data: &[u8], remote: Ipv4Endpoint) -> (r:
        Result<usize, UdpOutputError<R::Error>>)
        requires
            old(stack).wf(),
        ensures
            final(stack).wf(),
            final(stack).same_except_udp(old(stack)),
            udp_send_outcome(*old(stack), *final(stack), pcb, data@, remote, r),
    {
        let assigned = stack.udp_pcbs.assign_dynamic_port(pcb);
        let ghost after_assign = stack.udp_pcbs@;
        assert(udp_assign_outcome(old(stack).udp_pcbs@, after_assign, pcb, assigned));
        let local = match assigned {
            Ok(l) => l,
            Err(e) => {
                return Err(UdpOutputError::Pcb(e));
            },
        };
        let found = stack.ipv4_routes.lookup(remote.address());
        proof {
            lemma_lookup_is_best(stack.ipv4_routes@, remote.spec_address(), found);
        }
        let route = match found {
            Some(r) => r,
            None => {
                return Err(UdpOutputError::NetworkUnavailable);
            },
        };
        let interface = match stack.interfaces.interface_as(route.interface()) {
            Some(i) => i,
            None => {
                return Err(UdpOutputError::NetworkUnavailable);
            },
        };
        let source = if local.address().is_unspecified() {
            Ipv4Endpoint::new(interface.unicast(), local.port())
        } else {
            local
        };
        let datagram = match UdpPacket::build(source, remote, data) {
            Ok(d) => d,
            Err(e) => {
                return Err(UdpOutputError::Packet(e));
            },
        };
        assert(routed_interface(old(stack).ipv4_routes@, old(stack).interfaces@, remote.spec_address())
            == Some(interface@));
        let sent = Ipv4::output::<R, T>(
            stack,
            &interface,
            Ipv4Protocol::Udp.value(),
            datagram.as_slice(),
            source.address(),
            remote.address(),
        );
        assert(ipv4_output_outcome(
            old(stack).ipv4_routes@,
            old(stack).interfaces@,
            interface@,
            udp_datagram(source, remote, data@).len(),
            source.spec_address(),
            remote.spec_address(),
            sent,
        ));
        assert(stack.udp_pcbs@ == after_assign);
        let r = match sent {
            Ok(_) => Ok(data.len()),
            Err(e) => Err(UdpOutputError::Ipv4(e)),
        };
        assert(source == udp_source(local, interface@));
        r
    }

    /// Reads the oldest datagram queued on `pcb`: see
    /// [`UdpPcbRegistry::recv_from`](crate::protocol::udp::registry::UdpPcbRegistry::recv_from).
    pub fn recv_from(stack: &mut Stack, pcb: UdpPcbKey, buffer: &mut [u8]) -> (r: Result<
        Option<(usize, Ipv4Endpoint)>,
        UdpPcbError,
    >)
        requires
            old(stack).wf(),
        ensures
            final(stack).wf(),
            final(stack).same_except_udp(old(stack)),
            udp_recv_outcome(
                old(stack).udp_pcbs@,
                final(stack).udp_pcbs@,
                pcb,
                old(buffer)@,
                final(buffer)@,
                r,
            ),
    {
        stack.udp_pcbs.recv_from(pcb, buffer)
    }
}

} // verus!
