use vstd::prelude::*;

use crate::protocol::ipv4::addr::Ipv4Addr;
use crate::protocol::ipv4::pseudo::{pseudo_header_bytes, Ipv4PseudoHeader};
use crate::protocol::ipv4::Ipv4Protocol;
use crate::protocol::udp::UDP_HEADER_LEN;
use crate::protocol::wire::{be16_at, read_be16, seq_len};

verus! {

/// Length of the pseudo header that the UDP checksum covers.
pub const UDP_PSEUDO_HEADER_LEN: usize = 12;

/// The pseudo-header bytes of a UDP datagram of `length` bytes.
pub open spec fn udp_pseudo_header_bytes(src: Ipv4Addr, dest: Ipv4Addr, length: u16) -> Seq<u8> {
    pseudo_header_bytes(src, dest, Ipv4Protocol::Udp.spec_value(), length)
}

/// The pseudo header of a UDP datagram.
#[derive(Debug, Clone, Copy, PartialEq, Eq, Structural)]
pub struct UdpPseudoHeader {
    src: Ipv4Addr,
    dest: Ipv4Addr,
    length: u16,
}

impl UdpPseudoHeader {
    pub closed spec fn spec_bytes(self) -> Seq<u8> {
        udp_pseudo_header_bytes(self.src, self.dest, self.length)
    }

    pub fn new(src: Ipv4Addr, dest: Ipv4Addr, length: u16) -> (r: UdpPseudoHeader)
        ensures
            r.spec_bytes() == udp_pseudo_header_bytes(src, dest, length),
    {
        UdpPseudoHeader { src, dest, length }
    }

    /// The twelve pseudo-header bytes.
    pub fn to_bytes(&self) -> (r: [u8; 12])
        ensures
            r@ == self.spec_bytes(),
    {
        Ipv4PseudoHeader::new(self.src, self.dest, Ipv4Protocol::Udp, self.length).to_bytes()
    }
}

/// The fixed eight-byte UDP header.
#[derive(Debug, Clone, Copy, PartialEq, Eq, Structural)]
pub struct UdpHeader {
    src_port: u16,
    dest_port: u16,
    length: u16,
    checksum: u16,
}

/// What a [`UdpHeader`] holds.
pub struct UdpHeaderView {
    pub src_port: u16,
    pub dest_port: u16,
    pub length: u16,
    pub checksum: u16,
}

impl View for UdpHeader {
    type V = UdpHeaderView;

    closed spec fn view(&self) -> UdpHeaderView {
        UdpHeaderView {
            src_port: self.src_port,
            dest_port: self.dest_port,
            length: self.length,
            checksum: self.checksum,
        }
    }
}

/// Errors reading a UDP datagram.
#[derive(Debug, Clone, Copy, PartialEq, Eq, Structural)]
pub enum UdpError {
    TooShort { len: usize },
    LengthTooSmall { length: usize },
    LengthTruncated { len: usize, length: usize },
    InvalidChecksum,
    PayloadTooLarge { len: usize },
}

/// The UDP header that `data` starts with, or `TooShort`.
pub open spec fn udp_header_parse(data: Seq<u8>) -> Result<UdpHeaderView, UdpError> {
    if data.len() < UDP_HEADER_LEN {
        Err(UdpError::TooShort { len: seq_len(data) })
    } else {
        Ok(
            UdpHeaderView {
                src_port: be16_at(data, 0),
                dest_port: be16_at(data, 2),
                length: be16_at(data, 4),
                checksum: be16_at(data, 6),
            },
        )
    }
}

impl UdpHeader {
    /// A header is determined by what it holds.
    pub proof fn lemma_view(self, other: UdpHeader)
        ensures
            self@ == other@ ==> self == other,
    {
    }

    pub fn src_port(&self) -> (r: u16)
        ensures
            r == self@.src_port,
    {
        self.src_port
    }

    pub fn dest_port(&self) -> (r: u16)
        ensures
            r == self@.dest_port,
    {
        self.dest_port
    }

    pub fn length(&self) -> (r: u16)
        ensures
            r == self@.length,
    {
        self.length
    }

    pub fn checksum(&self) -> (r: u16)
        ensures
            r == self@.checksum,
    {
        self.checksum
    }

    /// Reads the header that `data` starts with.
    pub fn parse(data: &[u8]) -> (r: Result<UdpHeader, UdpError>)
        ensures
            match r {
                Ok(h) => udp_header_parse(data@) == Ok::<UdpHeaderView, UdpError>(h@),
                Err(e) => udp_header_parse(data@) == Err::<UdpHeaderView, UdpError>(e),
            },
    {
        if data.len() < UDP_HEADER_LEN {
            return Err(UdpError::TooShort { len: data.len() });
        }
        Ok(
            UdpHeader {
                src_port: read_be16(data, 0),
                dest_port: read_be16(data, 2),
                length: read_be16(data, 4),
                checksum: read_be16(data, 6),
            },
        )
    }
}

impl<'a> TryFrom<&'a [u8]> for UdpHeader {
    type Error = UdpError;

    fn try_from(data: &'a [u8]) -> (r: Result<UdpHeader, UdpError>)
        ensures
            match r {
                Ok(h) => udp_header_parse(data@) == Ok::<UdpHeaderView, UdpError>(h@),
                Err(e) => udp_header_parse(data@) == Err::<UdpHeaderView, UdpError>(e),
            },
    {
        UdpHeader::parse(data)
    }
}

impl<'a> vstd::std_specs::convert::TryFromSpecImpl<&'a [u8]> for UdpHeader {
    open spec fn obeys_try_from_spec() -> bool {
        false
    }

    open spec fn try_from_spec(v: &'a [u8]) -> Result<UdpHeader, UdpError> {
        arbitrary()
    }
}

} // verus!
