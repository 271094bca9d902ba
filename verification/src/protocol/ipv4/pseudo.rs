use vstd::prelude::*;

use crate::protocol::ipv4::addr::Ipv4Addr;
use crate::protocol::ipv4::Ipv4Protocol;
use crate::protocol::wire::{be16_bytes, push_be16};

verus! {

/// Length of the IPv4 pseudo header that transport checksums cover.
pub const IPV4_PSEUDO_HEADER_LEN: usize = 12;

/// The twelve pseudo-header bytes: source and destination address, a zero
/// byte, the protocol number and the transport length.
pub open spec fn pseudo_header_bytes(src: Ipv4Addr, dest: Ipv4Addr, protocol: u8, length: u16) -> Seq<
    u8,
> {
    src@ + dest@ + seq![0u8, protocol] + be16_bytes(length)
}

/// The IPv4 pseudo header that the TCP and UDP checksums cover.
#[derive(Debug, Clone, Copy, PartialEq, Eq, Structural)]
pub struct Ipv4PseudoHeader {
    src: Ipv4Addr,
    dest: Ipv4Addr,
    protocol: u8,
    length: u16,
}

impl Ipv4PseudoHeader {
    /// The bytes this pseudo header stands for.
    pub closed spec fn spec_bytes(self) -> Seq<u8> {
        pseudo_header_bytes(self.src, self.dest, self.protocol, self.length)
    }

    pub fn new(src: Ipv4Addr, dest: Ipv4Addr, protocol: Ipv4Protocol, length: u16) -> (r:
        Ipv4PseudoHeader)
        ensures
            r.spec_bytes() == pseudo_header_bytes(src, dest, protocol.spec_value(), length),
    {
        Ipv4PseudoHeader { src, dest, protocol: protocol.value(), length }
    }

    /// Appends the pseudo-header bytes to `buf`.
    pub fn push_to(&self, buf: &mut Vec<u8>)
        ensures
            final(buf)@ == old(buf)@ + self.spec_bytes(),
    {
        let ghost start = buf@;
        self.src.push_to(buf);
        self.dest.push_to(buf);
        buf.push(0);
        buf.push(self.protocol);
        push_be16(buf, self.length);
        assert(buf@ =~= start + self.spec_bytes());
    }

    /// The twelve pseudo-header bytes.
    pub fn to_bytes(&self) -> (r: [u8; 12])
        ensures
            r@ == self.spec_bytes(),
    {
        broadcast use Ipv4Addr::lemma_len;

        let mut v: Vec<u8> = Vec::with_capacity(IPV4_PSEUDO_HEADER_LEN);
        self.push_to(&mut v);
        assert(v@ =~= self.spec_bytes());
        let r = [v[0], v[1], v[2], v[3], v[4], v[5], v[6], v[7], v[8], v[9], v[10], v[11]];
        assert(r@ =~= self.spec_bytes());
        r
    }
}

} // verus!
