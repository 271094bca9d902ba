pub mod cache;
pub mod header;
pub mod packet;

use vstd::prelude::*;

use crate::interface::InterfaceOutputError;
use crate::protocol::arp::cache::{
    arp_expire, arp_hardware, arp_lookup, arp_update, ArpEntry,
};
use crate::protocol::arp::header::{arp_header_parse, ArpError, ArpOperation};
use crate::protocol::arp::packet::{arp_packet_bytes, arp_packet_from, lemma_arp_packet_from, ArpPacket};
use crate::device::registry::{DeviceView, SentFrame};
use crate::protocol::ipv4::interface::Ipv4InterfaceView;
use crate::slots::canonical_key;
use crate::protocol::ethernet::{EtherType, MacAddr};
use crate::protocol::ipv4::addr::Ipv4Addr;
use crate::protocol::ipv4::interface::Ipv4Interface;
use crate::stack::Stack;

verus! {

/// Length of an Ethernet/IPv4 ARP packet in bytes.
pub const PACKET_LEN: usize = 28;

/// Errors sending an ARP message.
#[derive(Debug, Clone, PartialEq, Eq)]
pub enum ArpOutputError {
    HardwareAddressUnavailable,
    Interface(InterfaceOutputError),
}

/// Why an address could not be resolved yet.
#[derive(Debug, Clone, PartialEq, Eq)]
pub enum ArpResolveError {
    /// A request is on its way; the answer is not known yet.
    Incomplete,
    /// The request could not be sent.
    Request(ArpOutputError),
}

/// `after` is the cache `before` after taking `packet` on the interface
/// with address `unicast`, when the clock read some time.
pub open spec fn arp_input_at_some_time(
    before: Seq<ArpEntry>,
    after: Seq<ArpEntry>,
    packet: ArpPacket,
    unicast: Ipv4Addr,
) -> bool {
    let for_us = packet.target_protocol == unicast;
    exists|now: u64| #[trigger]
        arp_cache_after_input(before, packet.sender_protocol, packet.sender_hardware, for_us, now)
            == after
}

/// The cache after a received ARP message at `now` from `sender_protocol`
/// at `sender_hardware`: the sender's valid entry is refreshed; without
/// one, the sender is added when the message is for us.
pub open spec fn arp_cache_after_input(
    entries: Seq<ArpEntry>,
    sender_protocol: Ipv4Addr,
    sender_hardware: MacAddr,
    for_us: bool,
    now: u64,
) -> Seq<ArpEntry> {
    let valid = arp_expire(entries, now);
    let refreshed = arp_update(valid, sender_protocol, sender_hardware, now);
    if arp_lookup(valid, sender_protocol) is None && for_us {
        arp_expire(refreshed, now).push(
            ArpEntry { protocol: sender_protocol, hardware: Some(sender_hardware), updated_at: now },
        )
    } else {
        refreshed
    }
}

/// The frame that carries an ARP message of `operation` from `interface`,
/// whose device reported `sender_hardware`, to `target_hardware` /
/// `target_protocol`: handed to the interface's device, addressed to
/// `target_hardware`.
pub open spec fn arp_frame(
    interface: Ipv4InterfaceView,
    operation: ArpOperation,
    sender_hardware: MacAddr,
    target_hardware: MacAddr,
    target_protocol: Ipv4Addr,
) -> SentFrame {
    SentFrame {
        device: canonical_key(interface.device->0@),
        frame_type: 0x0806,
        data: arp_packet_bytes(
            operation,
            sender_hardware,
            interface.unicast,
            target_hardware,
            target_protocol,
        ),
        destination: Some(target_hardware@),
    }
}

/// What sending an ARP message of `operation` from `interface`, whose
/// device reported `sender_hardware`, to `target_hardware` /
/// `target_protocol` owes, over the frames `before` and `after` handed to
/// the devices: without a reported address it is refused and nothing is
/// sent; otherwise the message from that address goes to the interface's
/// device, success giving its length; an unattached interface is refused
/// with nothing sent, and a device that refuses the frame is reported as
/// an interface error, the frame handed on only where the device took it.
pub open spec fn arp_output_outcome(
    before: Seq<SentFrame>,
    after: Seq<SentFrame>,
    interface: Ipv4InterfaceView,
    operation: ArpOperation,
    sender_hardware: Option<MacAddr>,
    target_hardware: MacAddr,
    target_protocol: Ipv4Addr,
    r: Result<usize, ArpOutputError>,
) -> bool {
    match sender_hardware {
        None => r == Err::<usize, ArpOutputError>(ArpOutputError::HardwareAddressUnavailable) && after == before,
        Some(hw) => {
            let frame = arp_frame(interface, operation, hw, target_hardware, target_protocol);
            match r {
                Ok(n) => n == PACKET_LEN && interface.device is Some && after == before.push(frame),
                Err(ArpOutputError::Interface(e)) => if interface.device is None {
                    e is NotAttached && after == before
                } else {
                    e is Device && (after == before || after == before.push(frame))
                },
                Err(ArpOutputError::HardwareAddressUnavailable) => false,
            }
        },
    }
}

/// ARP operations.
pub struct Arp;

impl Arp {
    /// The hardware address of `protocol` when the cache knows it at `now`;
    /// otherwise records that it is wanted, asks for it with a broadcast
    /// request from `interface`, and says why none is known yet.
    pub fn resolve(stack: &mut Stack, interface: &Ipv4Interface, protocol: Ipv4Addr, now: u64) -> (r: Result<
        MacAddr,
        ArpResolveError,
    >)
        requires
            old(stack).wf(),
        ensures
            old(stack).devices.sent().is_prefix_of(final(stack).devices.sent()),
            final(stack).devices.sent().len() <= old(stack).devices.sent().len() + 1,
            final(stack).wf(),
            final(stack).same_tables(old(stack)),
            r is Ok ==> final(stack).devices.sent() == old(stack).devices.sent(),
            ({
                let valid = arp_expire(old(stack).arp_cache@, now);
                match arp_hardware(arp_lookup(valid, protocol)) {
                    Some(mac) => r == Ok::<MacAddr, ArpResolveError>(mac) && final(stack).arp_cache@
                        == valid,
                    None => r is Err && final(stack).arp_cache@ == if arp_lookup(
                        arp_expire(valid, now),
                        protocol,
                    ) is Some {
                        arp_expire(valid, now)
                    } else {
                        arp_expire(valid, now).push(
                            ArpEntry { protocol, hardware: None, updated_at: now },
                        )
                    },
                }
            }),
    {
        match stack.arp_cache.resolve(protocol, now) {
            Some(mac) => Ok(mac),
            None => {
                stack.arp_cache.insert_incomplete(protocol, now);
                match Arp::output(stack, interface, ArpOperation::Request, MacAddr::broadcast(), protocol) {
                    Ok(_) => Err(ArpResolveError::Incomplete),
                    Err(e) => Err(ArpResolveError::Request(e)),
                }
            },
        }
    }

    /// Sends an ARP message of `operation` from `interface` to
    /// `dest_hardware`/`dest_protocol`, from the hardware address that the
    /// interface's device reports; gives the length of the message.
    pub fn output(
        stack: &mut Stack,
        interface: &Ipv4Interface,
        operation: ArpOperation,
        dest_hardware: MacAddr,
        dest_protocol: Ipv4Addr,
    ) -> (r: Result<usize, ArpOutputError>)
        requires
            old(stack).wf(),
        ensures
            old(stack).devices.sent().is_prefix_of(final(stack).devices.sent()),
            final(stack).devices.sent().len() <= old(stack).devices.sent().len() + 1,
            final(stack).wf(),
            final(stack).same_tables(old(stack)),
            final(stack).arp_cache@ == old(stack).arp_cache@,
            exists|reported: Option<MacAddr>|
                (interface@.device is None ==> reported is None) && #[trigger] arp_output_outcome(
                    old(stack).devices.sent(),
                    final(stack).devices.sent(),
                    interface@,
                    operation,
                    reported,
                    dest_hardware,
                    dest_protocol,
                    r,
                ),
    {
        let reported = interface.hardware_address(stack);
        Arp::output_from(stack, interface, operation, reported, dest_hardware, dest_protocol)
    }

    /// Sends an ARP message of `operation` from `interface` to
    /// `dest_hardware`/`dest_protocol`, with `sender_hardware` as the
    /// address its device reported: refused when there is none.
    pub fn output_from(
        stack: &mut Stack,
        interface: &Ipv4Interface,
        operation: ArpOperation,
        sender_hardware: Option<MacAddr>,
        dest_hardware: MacAddr,
        dest_protocol: Ipv4Addr,
    ) -> (r: Result<usize, ArpOutputError>)
        requires
            old(stack).wf(),
        ensures
            old(stack).devices.sent().is_prefix_of(final(stack).devices.sent()),
            final(stack).devices.sent().len() <= old(stack).devices.sent().len() + 1,
            final(stack).wf(),
            final(stack).same_tables(old(stack)),
            final(stack).arp_cache@ == old(stack).arp_cache@,
            arp_output_outcome(
                old(stack).devices.sent(),
                final(stack).devices.sent(),
                interface@,
                operation,
                sender_hardware,
                dest_hardware,
                dest_protocol,
                r,
            ),
    {
        let src_hardware = match sender_hardware {
            Some(mac) => mac,
            None => {
                return Err(ArpOutputError::HardwareAddressUnavailable);
            },
        };
        let packet = ArpPacket::build(
            operation,
            src_hardware,
            interface.unicast(),
            dest_hardware,
            dest_protocol,
        );
        proof {
            broadcast use Ipv4Addr::lemma_len;

            src_hardware.lemma_view(src_hardware);
            dest_hardware.lemma_view(dest_hardware);
        }
        let bytes = dest_hardware.bytes();
        let sent = interface.output_raw(stack, EtherType::Arp.value(), packet.as_slice(), Some(bytes.as_slice()));
        let ghost frame = arp_frame(interface@, operation, src_hardware, dest_hardware, dest_protocol);
        match sent {
            Ok(()) => {
                assert(stack.devices.sent() == old(stack).devices.sent().push(frame));
                Ok(packet.len())
            },
            Err(e) => {
                proof {
                    if interface@.device is Some {
                        assert(stack.devices.sent() == old(stack).devices.sent() || stack.devices.sent()
                            == old(stack).devices.sent().push(frame));
                    }
                }
                Err(ArpOutputError::Interface(e))
            },
        }
    }

    /// Takes a received ARP message: refreshes what the cache knows of the
    /// sender, learns the sender when the message is for `interface`, and
    /// answers a request for `interface`'s address.
    pub fn input(stack: &mut Stack, data: &[u8], interface: &Ipv4Interface, now: u64) -> (r: Result<
        (),
        ArpError,
    >)
        requires
            old(stack).wf(),
        ensures
            final(stack).wf(),
            final(stack).same_tables(old(stack)),
            arp_header_parse(data@) matches Err(e) ==> r == Err::<(), ArpError>(e) && *final(stack) == *old(stack),
            arp_header_parse(data@) is Ok ==> r is Ok && final(stack).arp_cache@
                == arp_cache_after_input(
                old(stack).arp_cache@,
                arp_packet_from(data@).sender_protocol,
                arp_packet_from(data@).sender_hardware,
                arp_packet_from(data@).target_protocol == interface@.unicast,
                now,
            ),
            arp_header_parse(data@) is Ok ==> {
                let p = arp_packet_from(data@);
                if p.target_protocol == interface@.unicast && p.header.operation
                    == ArpOperation::Request.spec_value() {
                    exists|reply: Result<usize, ArpOutputError>, reported: Option<MacAddr>| #[trigger]
                        arp_output_outcome(
                            old(stack).devices.sent(),
                            final(stack).devices.sent(),
                            interface@,
                            ArpOperation::Reply,
                            reported,
                            p.sender_hardware,
                            p.sender_protocol,
                            reply,
                        )
                } else {
                    final(stack).devices.sent() == old(stack).devices.sent()
                }
            },
    {
        let packet = match ArpPacket::parse(data) {
            Ok(p) => p,
            Err(e) => {
                return Err(e);
            },
        };
        proof {
            lemma_arp_packet_from(data@, packet);
        }
        let updated = stack.arp_cache.update(packet.sender_protocol(), packet.sender_hardware(), now);
        let for_us = packet.target_protocol() == interface.unicast();
        if !updated && for_us {
            stack.arp_cache.insert(packet.sender_protocol(), packet.sender_hardware(), now);
        }
        let ghost cache = stack.arp_cache@;
        if !for_us {
            return Ok(());
        }
        if packet.header().operation() == ArpOperation::Request.value() {
            let _ = Arp::output(
                stack,
                interface,
                ArpOperation::Reply,
                packet.sender_hardware(),
                packet.sender_protocol(),
            );
        }
        Ok(())
    }
}

} // verus!
