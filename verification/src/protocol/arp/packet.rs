use vstd::prelude::*;

use crate::protocol::arp::header::{arp_header_parse, ArpError, ArpHeader, ArpOperation};
use crate::protocol::arp::PACKET_LEN;
use crate::protocol::ethernet::{EtherType, MacAddr};
use crate::protocol::ipv4::addr::Ipv4Addr;
use crate::protocol::wire::{be16_at, be16_bytes, push_be16};

verus! {

/// An Ethernet/IPv4 ARP packet.
#[derive(Debug, Clone, Copy, PartialEq, Eq, Structural)]
pub struct ArpPacket {
    pub header: ArpHeader,
    pub sender_hardware: MacAddr,
    pub sender_protocol: Ipv4Addr,
    pub target_hardware: MacAddr,
    pub target_protocol: Ipv4Addr,
}

/// The twenty-eight bytes [`ArpPacket::build`] writes.
pub open spec fn arp_packet_bytes(
    operation: ArpOperation,
    sender_hardware: MacAddr,
    sender_protocol: Ipv4Addr,
    target_hardware: MacAddr,
    target_protocol: Ipv4Addr,
) -> Seq<u8> {
    be16_bytes(1) + be16_bytes(EtherType::Ipv4.spec_value()) + seq![6u8, 4u8] + be16_bytes(
        operation.spec_value(),
    ) + sender_hardware@ + sender_protocol@ + target_hardware@ + target_protocol@
}

/// The packet `data` holds, given its header: the addresses follow it.
pub open spec fn arp_packet_of(data: Seq<u8>, h: ArpHeader, p: ArpPacket) -> bool {
    &&& p.header == h
    &&& p.sender_hardware@ == data.subrange(8, 14)
    &&& p.sender_protocol@ == data.subrange(14, 18)
    &&& p.target_hardware@ == data.subrange(18, 24)
    &&& p.target_protocol@ == data.subrange(24, 28)
}

impl ArpPacket {
    pub fn header(&self) -> (r: ArpHeader)
        ensures
            r == self.header,
    {
        self.header
    }

    pub fn sender_hardware(&self) -> (r: MacAddr)
        ensures
            r == self.sender_hardware,
    {
        self.sender_hardware
    }

    pub fn sender_protocol(&self) -> (r: Ipv4Addr)
        ensures
            r == self.sender_protocol,
    {
        self.sender_protocol
    }

    pub fn target_hardware(&self) -> (r: MacAddr)
        ensures
            r == self.target_hardware,
    {
        self.target_hardware
    }

    pub fn target_protocol(&self) -> (r: Ipv4Addr)
        ensures
            r == self.target_protocol,
    {
        self.target_protocol
    }

    /// The bytes of an Ethernet/IPv4 ARP packet with the given fields.
    pub fn build(
        operation: ArpOperation,
        sender_hardware: MacAddr,
        sender_protocol: Ipv4Addr,
        target_hardware: MacAddr,
        target_protocol: Ipv4Addr,
    ) -> (r: Vec<u8>)
        ensures
            r@ == arp_packet_bytes(
                operation,
                sender_hardware,
                sender_protocol,
                target_hardware,
                target_protocol,
            ),
    {
        let mut data: Vec<u8> = Vec::with_capacity(PACKET_LEN);
        push_be16(&mut data, 1);
        push_be16(&mut data, EtherType::Ipv4.value());
        data.push(6);
        data.push(4);
        push_be16(&mut data, operation.value());
        sender_hardware.push_to(&mut data);
        sender_protocol.push_to(&mut data);
        target_hardware.push_to(&mut data);
        target_protocol.push_to(&mut data);
        assert(data@ =~= arp_packet_bytes(
            operation,
            sender_hardware,
            sender_protocol,
            target_hardware,
            target_protocol,
        ));
        data
    }

    /// Reads an Ethernet/IPv4 ARP packet.
    pub fn parse(data: &[u8]) -> (r: Result<ArpPacket, ArpError>)
        ensures
            match r {
                Ok(p) => arp_header_parse(data@) == Ok::<ArpHeader, ArpError>(p.header)
                    && arp_packet_of(data@, p.header, p),
                Err(e) => arp_header_parse(data@) == Err::<ArpHeader, ArpError>(e),
            },
    {
        let header = match ArpHeader::parse(data) {
            Ok(h) => h,
            Err(e) => {
                return Err(e);
            },
        };
        let sender_protocol = Ipv4Addr::from_slice_at(data, 14);
        let target_protocol = Ipv4Addr::from_slice_at(data, 24);
        Ok(
            ArpPacket {
                header,
                sender_hardware: MacAddr::from_slice_at(data, 8),
                sender_protocol,
                target_hardware: MacAddr::from_slice_at(data, 18),
                target_protocol,
            },
        )
    }
}

impl<'a> TryFrom<&'a [u8]> for ArpPacket {
    type Error = ArpError;

    fn try_from(data: &'a [u8]) -> (r: Result<ArpPacket, ArpError>)
        ensures
            match r {
                Ok(p) => arp_header_parse(data@) == Ok::<ArpHeader, ArpError>(p.header)
                    && arp_packet_of(data@, p.header, p),
                Err(e) => arp_header_parse(data@) == Err::<ArpHeader, ArpError>(e),
            },
    {
        ArpPacket::parse(data)
    }
}

impl<'a> vstd::std_specs::convert::TryFromSpecImpl<&'a [u8]> for ArpPacket {
    open spec fn obeys_try_from_spec() -> bool {
        false
    }

    open spec fn try_from_spec(v: &'a [u8]) -> Result<ArpPacket, ArpError> {
        arbitrary()
    }
}

/// The packet that `data` holds, when it holds one.
pub open spec fn arp_packet_from(data: Seq<u8>) -> ArpPacket {
    choose|p: ArpPacket|
        arp_header_parse(data) == Ok::<ArpHeader, ArpError>(p.header) && arp_packet_of(
            data,
            p.header,
            p,
        )
}

/// A packet read from `data` is the one `data` holds.
pub proof fn lemma_arp_packet_from(data: Seq<u8>, p: ArpPacket)
    requires
        arp_header_parse(data) == Ok::<ArpHeader, ArpError>(p.header),
        arp_packet_of(data, p.header, p),
    ensures
        arp_packet_from(data) == p,
{
    let q = arp_packet_from(data);
    q.sender_hardware.lemma_view(p.sender_hardware);
    q.target_hardware.lemma_view(p.target_hardware);
    q.sender_protocol.lemma_view(p.sender_protocol);
    q.target_protocol.lemma_view(p.target_protocol);
}

/// A packet that [`ArpPacket::build`] writes reads back with the operation
/// and addresses it was built from.
pub proof fn lemma_arp_packet_roundtrip(
    operation: ArpOperation,
    sender_hardware: MacAddr,
    sender_protocol: Ipv4Addr,
    target_hardware: MacAddr,
    target_protocol: Ipv4Addr,
)
    ensures
        ({
            let data = arp_packet_bytes(
                operation,
                sender_hardware,
                sender_protocol,
                target_hardware,
                target_protocol,
            );
            let h = ArpHeader {
                hardware_type: 1,
                protocol_type: EtherType::Ipv4.spec_value(),
                hardware_len: 6,
                protocol_len: 4,
                operation: operation.spec_value(),
            };
            &&& arp_header_parse(data) == Ok::<ArpHeader, ArpError>(h)
            &&& forall|p: ArpPacket| #[trigger] arp_packet_of(data, h, p) ==> p == (ArpPacket {
                header: h,
                sender_hardware,
                sender_protocol,
                target_hardware,
                target_protocol,
            })
        }),
{
    broadcast use Ipv4Addr::lemma_len;

    let data = arp_packet_bytes(
        operation,
        sender_hardware,
        sender_protocol,
        target_hardware,
        target_protocol,
    );
    sender_hardware.lemma_view(sender_hardware);
    target_hardware.lemma_view(target_hardware);
    assert(be16_at(data, 0) == 1);
    assert(be16_at(data, 2) == EtherType::Ipv4.spec_value());
    assert(be16_at(data, 6) == operation.spec_value());
    assert(data.subrange(8, 14) =~= sender_hardware@);
    assert(data.subrange(14, 18) =~= sender_protocol@);
    assert(data.subrange(18, 24) =~= target_hardware@);
    assert(data.subrange(24, 28) =~= target_protocol@);
    assert forall|p: ArpPacket| #[trigger] arp_packet_of(
        data,
        ArpHeader {
            hardware_type: 1,
            protocol_type: EtherType::Ipv4.spec_value(),
            hardware_len: 6,
            protocol_len: 4,
            operation: operation.spec_value(),
        },
        p,
    ) implies p == (ArpPacket {
        header: ArpHeader {
            hardware_type: 1,
            protocol_type: EtherType::Ipv4.spec_value(),
            hardware_len: 6,
            protocol_len: 4,
            operation: operation.spec_value(),
        },
        sender_hardware,
        sender_protocol,
        target_hardware,
        target_protocol,
    }) by {
        p.sender_hardware.lemma_view(sender_hardware);
        p.target_hardware.lemma_view(target_hardware);
        p.sender_protocol.lemma_view(sender_protocol);
        p.target_protocol.lemma_view(target_protocol);
    }
}

} // verus!
