use vstd::prelude::*;

use crate::protocol::checksum::{checksum16, internet_checksum, lemma_checksum_fills_field};
use crate::protocol::ipv4::addr::{Ipv4Addr, Ipv4Endpoint};
use crate::protocol::ipv4::packet::Ipv4Packet;
use crate::protocol::udp::header::{
    udp_header_parse, udp_pseudo_header_bytes, UdpError, UdpHeader, UdpHeaderView,
    UdpPseudoHeader, UDP_PSEUDO_HEADER_LEN,
};
use crate::protocol::udp::UDP_HEADER_LEN;
use crate::protocol::wire::{be16_at, be16_bytes, push_be16, push_bytes};

verus! {

/// The header and length of the UDP datagram that `data` (carried from
/// `src` to `dest`) starts with, or why it holds none. A zero checksum field
/// means that no checksum was sent.
pub open spec fn udp_packet_parse(src: Ipv4Addr, dest: Ipv4Addr, data: Seq<u8>) -> Result<
    (UdpHeaderView, int),
    UdpError,
> {
    match udp_header_parse(data) {
        Err(e) => Err(e),
        Ok(h) => {
            let length = h.length as int;
            if length < UDP_HEADER_LEN {
                Err(UdpError::LengthTooSmall { length: length as usize })
            } else if data.len() < length {
                Err(UdpError::LengthTruncated { len: data.len() as usize, length: length as usize })
            } else if h.checksum != 0 && internet_checksum(
                udp_pseudo_header_bytes(src, dest, h.length) + data.subrange(0, length),
            ) != 0 {
                Err(UdpError::InvalidChecksum)
            } else {
                Ok((h, length))
            }
        },
    }
}

/// A UDP datagram with the endpoints it travels between.
#[derive(Debug, Clone, Copy, PartialEq, Eq)]
pub struct UdpPacket<'a> {
    src: Ipv4Endpoint,
    dest: Ipv4Endpoint,
    header: UdpHeader,
    payload: &'a [u8],
    data: &'a [u8],
}

/// What a [`UdpPacket`] holds.
pub struct UdpPacketView {
    pub src: Ipv4Endpoint,
    pub dest: Ipv4Endpoint,
    pub header: UdpHeaderView,
    pub payload: Seq<u8>,
    pub data: Seq<u8>,
}

impl<'a> View for UdpPacket<'a> {
    type V = UdpPacketView;

    closed spec fn view(&self) -> UdpPacketView {
        UdpPacketView {
            src: self.src,
            dest: self.dest,
            header: self.header@,
            payload: self.payload@,
            data: self.data@,
        }
    }
}

impl<'a> UdpPacket<'a> {
    pub fn src(&self) -> (r: Ipv4Endpoint)
        ensures
            r == self@.src,
    {
        self.src
    }

    pub fn dest(&self) -> (r: Ipv4Endpoint)
        ensures
            r == self@.dest,
    {
        self.dest
    }

    pub fn header(&self) -> (r: UdpHeader)
        ensures
            r@ == self@.header,
    {
        self.header
    }

    pub fn payload(&self) -> (r: &'a [u8])
        ensures
            r@ == self@.payload,
    {
        self.payload
    }

    pub fn data(&self) -> (r: &'a [u8])
        ensures
            r@ == self@.data,
    {
        self.data
    }

    /// Reads the UDP datagram that `packet` carries: its header, its length,
    /// and its checksum when one was sent.
    pub fn from_ipv4(packet: Ipv4Packet<'a>) -> (r: Result<UdpPacket<'a>, UdpError>)
        ensures
            match r {
                Ok(p) => {
                    &&& udp_packet_parse(packet@.header.src, packet@.header.dest, packet@.payload)
                        == Ok::<(UdpHeaderView, int), UdpError>((p@.header, p@.data.len() as int))
                    &&& p@.data == packet@.payload.subrange(0, p@.data.len() as int)
                    &&& p@.payload == packet@.payload.subrange(
                        UDP_HEADER_LEN as int,
                        p@.data.len() as int,
                    )
                    &&& p@.src.spec_address() == packet@.header.src
                    &&& p@.src.spec_port() == p@.header.src_port
                    &&& p@.dest.spec_address() == packet@.header.dest
                    &&& p@.dest.spec_port() == p@.header.dest_port
                },
                Err(e) => udp_packet_parse(packet@.header.src, packet@.header.dest, packet@.payload)
                    == Err::<(UdpHeaderView, int), UdpError>(e),
            },
    {
        let data = packet.payload();
        let header = match UdpHeader::parse(data) {
            Ok(h) => h,
            Err(e) => {
                return Err(e);
            },
        };
        let length = header.length() as usize;
        if length < UDP_HEADER_LEN {
            return Err(UdpError::LengthTooSmall { length });
        }
        if data.len() < length {
            return Err(UdpError::LengthTruncated { len: data.len(), length });
        }
        let data = vstd::slice::slice_subrange(data, 0, length);
        let ip_header = packet.header();
        if header.checksum() != 0 {
            let pseudo_header = UdpPseudoHeader::new(ip_header.src(), ip_header.dest(), header.length());
            let mut checksum_data: Vec<u8> = Vec::with_capacity(UDP_PSEUDO_HEADER_LEN + length);
            let pseudo = pseudo_header.to_bytes();
            push_bytes(&mut checksum_data, pseudo.as_slice());
            push_bytes(&mut checksum_data, data);
            if checksum16(checksum_data.as_slice()) != 0 {
                return Err(UdpError::InvalidChecksum);
            }
        }
        Ok(
            UdpPacket {
                src: Ipv4Endpoint::new(ip_header.src(), header.src_port()),
                dest: Ipv4Endpoint::new(ip_header.dest(), header.dest_port()),
                header,
                payload: vstd::slice::slice_subrange(data, UDP_HEADER_LEN, length),
                data,
            },
        )
    }
}

/// The bytes of a datagram with `checksum` in its checksum field.
pub open spec fn udp_datagram_raw(src: Ipv4Endpoint, dest: Ipv4Endpoint, checksum: u16, payload: Seq<u8>) -> Seq<
    u8,
> {
    be16_bytes(src.spec_port()) + be16_bytes(dest.spec_port()) + be16_bytes(
        (UDP_HEADER_LEN + payload.len()) as u16,
    ) + be16_bytes(checksum) + payload
}

/// The datagram [`UdpPacket::build`] makes: the checksum is computed over
/// the pseudo header and the datagram with a zero checksum field.
pub open spec fn udp_datagram(src: Ipv4Endpoint, dest: Ipv4Endpoint, payload: Seq<u8>) -> Seq<u8> {
    let length = (UDP_HEADER_LEN + payload.len()) as u16;
    udp_datagram_raw(
        src,
        dest,
        internet_checksum(
            udp_pseudo_header_bytes(src.spec_address(), dest.spec_address(), length)
                + udp_datagram_raw(src, dest, 0, payload),
        ),
        payload,
    )
}

impl<'a> UdpPacket<'a> {
    /// Builds a datagram from `src` to `dest` with its checksum filled in.
    pub fn build(src: Ipv4Endpoint, dest: Ipv4Endpoint, payload: &[u8]) -> (r: Result<Vec<u8>, UdpError>)
        ensures
            UDP_HEADER_LEN + payload@.len() > u16::MAX ==> r == Err::<Vec<u8>, UdpError>(
                UdpError::PayloadTooLarge { len: payload@.len() as usize },
            ),
            UDP_HEADER_LEN + payload@.len() <= u16::MAX ==> (r matches Ok(bytes) && bytes@
                == udp_datagram(src, dest, payload@)),
    {
        if payload.len() > 0xffff - UDP_HEADER_LEN {
            return Err(UdpError::PayloadTooLarge { len: payload.len() });
        }
        let length = (UDP_HEADER_LEN + payload.len()) as u16;
        let mut data: Vec<u8> = Vec::new();
        push_be16(&mut data, src.port());
        push_be16(&mut data, dest.port());
        push_be16(&mut data, length);
        push_be16(&mut data, 0);
        push_bytes(&mut data, payload);
        assert(data@ =~= udp_datagram_raw(src, dest, 0, payload@));
        let pseudo = UdpPseudoHeader::new(src.address(), dest.address(), length).to_bytes();
        let mut checksum_data: Vec<u8> = Vec::new();
        push_bytes(&mut checksum_data, pseudo.as_slice());
        push_bytes(&mut checksum_data, data.as_slice());
        let checksum = checksum16(checksum_data.as_slice());
        data.set(6, (checksum / 256) as u8);
        data.set(7, (checksum % 256) as u8);
        assert(data@ =~= udp_datagram(src, dest, payload@));
        Ok(data)
    }
}

/// A datagram that [`UdpPacket::build`] makes reads back, between the
/// addresses it was built for: its ports, its length, and its payload.
pub proof fn lemma_udp_datagram_roundtrip(src: Ipv4Endpoint, dest: Ipv4Endpoint, payload: Seq<u8>)
    requires
        UDP_HEADER_LEN + payload.len() <= u16::MAX,
    ensures
        ({
            let d = udp_datagram(src, dest, payload);
            &&& udp_packet_parse(src.spec_address(), dest.spec_address(), d) matches Ok((h, len))
                && h.src_port == src.spec_port() && h.dest_port == dest.spec_port() && len == d.len()
            &&& d.subrange(UDP_HEADER_LEN as int, d.len() as int) == payload
        }),
{
    broadcast use Ipv4Addr::lemma_len;

    let length = (UDP_HEADER_LEN + payload.len()) as u16;
    let zeroed = udp_datagram_raw(src, dest, 0, payload);
    let pseudo = udp_pseudo_header_bytes(src.spec_address(), dest.spec_address(), length);
    let whole = pseudo + zeroed;
    let c = internet_checksum(whole);
    let d = udp_datagram(src, dest, payload);
    assert(d.len() == length);
    assert(pseudo.len() == 12);
    assert(pseudo + d =~= whole.update(18, (c / 256) as u8).update(19, (c % 256) as u8));
    lemma_checksum_fills_field(whole, 18);
    assert(be16_at(d, 0) == src.spec_port());
    assert(be16_at(d, 2) == dest.spec_port());
    assert(be16_at(d, 4) == length);
    assert(be16_at(d, 6) == c);
    assert(d.subrange(0, d.len() as int) =~= d);
    assert(d.subrange(UDP_HEADER_LEN as int, d.len() as int) =~= payload);
}

} // verus!
