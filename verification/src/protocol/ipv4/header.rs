use vstd::prelude::*;

use crate::protocol::checksum::{checksum16, internet_checksum, lemma_checksum_fills_field};
use crate::protocol::ipv4::addr::Ipv4Addr;
use crate::protocol::wire::{be16_at, be16_bytes, push_be16, read_be16};

verus! {

/// The only IP version this stack speaks.
pub const VERSION: u8 = 4;

/// Length of the IPv4 base header in bytes; options are not supported.
pub const IP_HEADER_LEN: usize = 20;

/// The fields of an IPv4 header.
#[derive(Debug, Clone, Copy, PartialEq, Eq, Structural)]
pub struct Ipv4Header {
    version: u8,
    tos: u8,
    id: u16,
    flags: u8,
    fragment_offset: u16,
    ttl: u8,
    protocol: u8,
    checksum: Option<u16>,
    source: Ipv4Addr,
    destination: Ipv4Addr,
}

/// What an [`Ipv4Header`] holds, field by field.
pub struct Ipv4HeaderView {
    pub version: u8,
    pub tos: u8,
    pub id: u16,
    pub flags: u8,
    pub fragment_offset: u16,
    pub ttl: u8,
    pub protocol: u8,
    pub checksum: Option<u16>,
    pub src: Ipv4Addr,
    pub dest: Ipv4Addr,
}

impl View for Ipv4Header {
    type V = Ipv4HeaderView;

    closed spec fn view(&self) -> Ipv4HeaderView {
        Ipv4HeaderView {
            version: self.version,
            tos: self.tos,
            id: self.id,
            flags: self.flags,
            fragment_offset: self.fragment_offset,
            ttl: self.ttl,
            protocol: self.protocol,
            checksum: self.checksum,
            src: self.source,
            dest: self.destination,
        }
    }
}

/// Errors reading or building an IPv4 packet.
#[derive(Debug, Clone, Copy, PartialEq, Eq, Structural)]
pub enum Ipv4Error {
    TooShort { len: usize },
    InvalidVersion { version: u8 },
    InvalidHeaderLength { header_len: usize },
    InvalidChecksum,
    TotalLengthTooSmall { total_len: usize },
    TotalTruncated { len: usize, total_len: usize },
    Fragmented,
    PayloadTooLarge { len: usize },
}

/// The header that `data` starts with, or why it holds none.
pub open spec fn ipv4_header_parse(data: Seq<u8>) -> Result<Ipv4HeaderView, Ipv4Error> {
    if data.len() < IP_HEADER_LEN {
        Err(Ipv4Error::TooShort { len: data.len() as usize })
    } else if data[0] / 16 != VERSION {
        Err(Ipv4Error::InvalidVersion { version: data[0] / 16 })
    } else if (data[0] % 16) as int * 4 != IP_HEADER_LEN {
        Err(Ipv4Error::InvalidHeaderLength { header_len: ((data[0] % 16) as int * 4) as usize })
    } else if internet_checksum(data.subrange(0, IP_HEADER_LEN as int)) != 0 {
        Err(Ipv4Error::InvalidChecksum)
    } else {
        Ok(
            Ipv4HeaderView {
                version: data[0] / 16,
                tos: data[1],
                id: be16_at(data, 4),
                flags: (be16_at(data, 6) / 0x2000) as u8,
                fragment_offset: be16_at(data, 6) % 0x2000,
                ttl: data[8],
                protocol: data[9],
                checksum: Some(be16_at(data, 10)),
                src: Ipv4Addr::spec_from_seq(data.subrange(12, 16)),
                dest: Ipv4Addr::spec_from_seq(data.subrange(16, 20)),
            },
        )
    }
}

/// The flags and fragment offset as they share one 16-bit word.
pub open spec fn flags_and_offset(flags: u8, fragment_offset: u16) -> u16 {
    ((flags as u16) << 13u16) | fragment_offset
}

/// The twenty header bytes of `h` for a packet of `total_len` bytes, with
/// `checksum` in the checksum field.
pub open spec fn ipv4_header_raw(h: Ipv4HeaderView, total_len: u16, checksum: u16) -> Seq<u8> {
    seq![(((h.version as int) % 16) * 16 + 5) as u8, h.tos] + be16_bytes(total_len) + be16_bytes(h.id)
        + be16_bytes(flags_and_offset(h.flags, h.fragment_offset)) + seq![h.ttl, h.protocol]
        + be16_bytes(checksum) + h.src@ + h.dest@
}

/// The twenty header bytes that [`Ipv4Header::to_bytes`] writes: the stored
/// checksum if there is one, otherwise the checksum computed over the header.
pub open spec fn ipv4_header_bytes(h: Ipv4HeaderView, total_len: u16) -> Seq<u8> {
    match h.checksum {
        Some(c) => ipv4_header_raw(h, total_len, c),
        None => ipv4_header_raw(
            h,
            total_len,
            internet_checksum(ipv4_header_raw(h, total_len, 0)),
        ),
    }
}

impl Ipv4Header {
    /// A header is determined by its fields.
    pub proof fn lemma_view(self, other: Ipv4Header)
        ensures
            self@ == other@ ==> self == other,
    {
    }

    /// A header for an outgoing packet: version 4, no options, TTL 255, not
    /// fragmented, checksum to be computed.
    pub fn new(protocol: u8, id: u16, source: Ipv4Addr, destination: Ipv4Addr) -> (r: Ipv4Header)
        ensures
            r@ == (Ipv4HeaderView {
                version: VERSION,
                tos: 0,
                id,
                flags: 0,
                fragment_offset: 0,
                ttl: 255,
                protocol,
                checksum: None,
                src: source,
                dest: destination,
            }),
    {
        Ipv4Header {
            version: VERSION,
            tos: 0,
            id,
            flags: 0,
            fragment_offset: 0,
            ttl: 255,
            protocol,
            checksum: None,
            source,
            destination,
        }
    }

    pub fn version(&self) -> (r: u8)
        ensures
            r == self@.version,
    {
        self.version
    }

    pub fn tos(&self) -> (r: u8)
        ensures
            r == self@.tos,
    {
        self.tos
    }

    pub fn id(&self) -> (r: u16)
        ensures
            r == self@.id,
    {
        self.id
    }

    pub fn flags(&self) -> (r: u8)
        ensures
            r == self@.flags,
    {
        self.flags
    }

    pub fn fragment_offset(&self) -> (r: u16)
        ensures
            r == self@.fragment_offset,
    {
        self.fragment_offset
    }

    pub fn ttl(&self) -> (r: u8)
        ensures
            r == self@.ttl,
    {
        self.ttl
    }

    pub fn protocol(&self) -> (r: u8)
        ensures
            r == self@.protocol,
    {
        self.protocol
    }

    pub fn checksum(&self) -> (r: Option<u16>)
        ensures
            r == self@.checksum,
    {
        self.checksum
    }

    pub fn src(&self) -> (r: Ipv4Addr)
        ensures
            r == self@.src,
    {
        self.source
    }

    pub fn dest(&self) -> (r: Ipv4Addr)
        ensures
            r == self@.dest,
    {
        self.destination
    }

    /// Reads the header at the start of `data`, checking the version, the
    /// header length and the checksum.
    pub fn parse(data: &[u8]) -> (r: Result<Ipv4Header, Ipv4Error>)
        ensures
            match r {
                Ok(h) => ipv4_header_parse(data@) == Ok::<Ipv4HeaderView, Ipv4Error>(h@),
                Err(e) => ipv4_header_parse(data@) == Err::<Ipv4HeaderView, Ipv4Error>(e),
            },
    {
        broadcast use Ipv4Addr::lemma_spec_from_seq;

        if data.len() < IP_HEADER_LEN {
            return Err(Ipv4Error::TooShort { len: data.len() });
        }
        let version = data[0] / 16;
        if version != VERSION {
            return Err(Ipv4Error::InvalidVersion { version });
        }
        let header_len = ((data[0] % 16) as usize) * 4;
        if header_len != IP_HEADER_LEN {
            return Err(Ipv4Error::InvalidHeaderLength { header_len });
        }
        let head = vstd::slice::slice_subrange(data, 0, IP_HEADER_LEN);
        if checksum16(head) != 0 {
            return Err(Ipv4Error::InvalidChecksum);
        }
        let flags_and_offset = read_be16(data, 6);
        let h = Ipv4Header {
            version,
            tos: data[1],
            id: read_be16(data, 4),
            flags: (flags_and_offset / 0x2000) as u8,
            fragment_offset: flags_and_offset % 0x2000,
            ttl: data[8],
            protocol: data[9],
            checksum: Some(read_be16(data, 10)),
            source: Ipv4Addr::from_slice_at(data, 12),
            destination: Ipv4Addr::from_slice_at(data, 16),
        };
        proof {
            Ipv4Addr::lemma_spec_from_view(h.source);
            Ipv4Addr::lemma_spec_from_view(h.destination);
        }
        Ok(h)
    }

    /// The twenty header bytes for a packet of `total_len` bytes; when the
    /// header holds no checksum, the checksum is computed over the header.
    pub fn to_bytes(&self, total_len: u16) -> (r: [u8; 20])
        ensures
            r@ == ipv4_header_bytes(self@, total_len),
    {
        broadcast use Ipv4Addr::lemma_len;

        let flags_and_offset: u16 = ((self.flags as u16) << 13u16) | self.fragment_offset;
        let mut v: Vec<u8> = Vec::with_capacity(IP_HEADER_LEN);
        v.push(((self.version % 16) * 16 + 5) as u8);
        v.push(self.tos);
        push_be16(&mut v, total_len);
        push_be16(&mut v, self.id);
        push_be16(&mut v, flags_and_offset);
        v.push(self.ttl);
        v.push(self.protocol);
        let stored: u16 = match self.checksum {
            Some(c) => c,
            None => 0,
        };
        push_be16(&mut v, stored);
        self.source.push_to(&mut v);
        self.destination.push_to(&mut v);
        assert(v@ =~= ipv4_header_raw(self@, total_len, stored));
        let checksum: u16 = match self.checksum {
            Some(c) => c,
            None => checksum16(v.as_slice()),
        };
        let hi = (checksum / 256) as u8;
        let lo = (checksum % 256) as u8;
        let r = [
            v[0], v[1], v[2], v[3], v[4], v[5], v[6], v[7], v[8], v[9], hi, lo, v[12], v[13], v[14],
            v[15], v[16], v[17], v[18], v[19],
        ];
        assert(r@ =~= ipv4_header_raw(self@, total_len, checksum));
        r
    }
}

/// A header that [`Ipv4Header::to_bytes`] writes without a stored checksum
/// carries a valid checksum.
pub proof fn lemma_header_checksum_valid(h: Ipv4HeaderView, total_len: u16)
    requires
        h.checksum is None,
    ensures
        ipv4_header_bytes(h, total_len).len() == IP_HEADER_LEN,
        internet_checksum(ipv4_header_bytes(h, total_len)) == 0,
{
    broadcast use Ipv4Addr::lemma_len;

    let z = ipv4_header_raw(h, total_len, 0);
    let c = internet_checksum(z);
    assert(ipv4_header_raw(h, total_len, c) =~= z.update(10, (c / 256) as u8).update(
        11,
        (c % 256) as u8,
    ));
    lemma_checksum_fills_field(z, 10);
}

} // verus!
