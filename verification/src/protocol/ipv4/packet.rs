use vstd::prelude::*;

use crate::protocol::checksum::internet_checksum;
use crate::protocol::ipv4::addr::Ipv4Addr;
use crate::protocol::ipv4::header::{
    flags_and_offset, ipv4_header_bytes, ipv4_header_parse, ipv4_header_raw,
    lemma_header_checksum_valid, Ipv4Error, Ipv4Header, Ipv4HeaderView, IP_HEADER_LEN, VERSION,
};
use crate::protocol::wire::{be16_at, push_bytes, read_be16};

verus! {

/// An IPv4 packet: its parsed header and the bytes it borrows.
#[derive(Debug, Clone, Copy, PartialEq, Eq)]
pub struct Ipv4Packet<'a> {
    header: Ipv4Header,
    payload: &'a [u8],
    data: &'a [u8],
}

/// What an [`Ipv4Packet`] holds: the header, the payload, and the whole
/// packet up to its total length.
pub struct Ipv4PacketView {
    pub header: Ipv4HeaderView,
    pub payload: Seq<u8>,
    pub data: Seq<u8>,
}

impl<'a> View for Ipv4Packet<'a> {
    type V = Ipv4PacketView;

    closed spec fn view(&self) -> Ipv4PacketView {
        Ipv4PacketView { header: self.header@, payload: self.payload@, data: self.data@ }
    }
}

/// The header of a packet built by [`Ipv4Packet::build`].
pub open spec fn ipv4_new_header(
    protocol: u8,
    id: u16,
    src: Ipv4Addr,
    dest: Ipv4Addr,
) -> Ipv4HeaderView {
    Ipv4HeaderView {
        version: VERSION,
        tos: 0,
        id,
        flags: 0,
        fragment_offset: 0,
        ttl: 255,
        protocol,
        checksum: None,
        src,
        dest,
    }
}

/// The header and total length of the packet that `data` starts with, or
/// why `data` holds none.
pub open spec fn ipv4_packet_parse(data: Seq<u8>) -> Result<(Ipv4HeaderView, int), Ipv4Error> {
    match ipv4_header_parse(data) {
        Err(e) => Err(e),
        Ok(h) => {
            let total = be16_at(data, 2) as int;
            if total < IP_HEADER_LEN {
                Err(Ipv4Error::TotalLengthTooSmall { total_len: total as usize })
            } else if data.len() < total {
                Err(Ipv4Error::TotalTruncated { len: data.len() as usize, total_len: total as usize })
            } else if h.flags % 2 != 0 || h.fragment_offset != 0 {
                Err(Ipv4Error::Fragmented)
            } else {
                Ok((h, total))
            }
        },
    }
}

impl<'a> Ipv4Packet<'a> {
    pub fn header(&self) -> (r: Ipv4Header)
        ensures
            r@ == self@.header,
    {
        self.header
    }

    pub fn payload(&self) -> (r: &'a [u8])
        ensures
            r@ == self@.payload,
    {
        self.payload
    }

    pub fn data(&self) -> (r: &'a [u8])
        ensures
            r@ == self@.data,
    {
        self.data
    }

    /// Length of the header and payload.
    pub fn packet_len(&self) -> (r: usize)
        requires
            self@.payload.len() + IP_HEADER_LEN <= usize::MAX,
        ensures
            r == IP_HEADER_LEN + self@.payload.len(),
    {
        IP_HEADER_LEN + self.payload.len()
    }

    /// Builds a packet with a fresh header (see [`Ipv4Header::new`]) around
    /// `payload`.
    pub fn build(protocol: u8, payload: &[u8], id: u16, src: Ipv4Addr, dest: Ipv4Addr) -> (r:
        Result<Vec<u8>, Ipv4Error>)
        ensures
            IP_HEADER_LEN + payload@.len() > u16::MAX ==> r == Err::<Vec<u8>, Ipv4Error>(
                Ipv4Error::PayloadTooLarge { len: payload@.len() as usize },
            ),
            IP_HEADER_LEN + payload@.len() <= u16::MAX ==> (r matches Ok(bytes) && bytes@
                == ipv4_header_bytes(
                ipv4_new_header(protocol, id, src, dest),
                (IP_HEADER_LEN + payload@.len()) as u16,
            ) + payload@),
    {
        let total_len = match IP_HEADER_LEN.checked_add(payload.len()) {
            Some(total) => total,
            None => {
                return Err(Ipv4Error::PayloadTooLarge { len: payload.len() });
            },
        };
        if total_len > 0xffff {
            return Err(Ipv4Error::PayloadTooLarge { len: payload.len() });
        }
        let header = Ipv4Header::new(protocol, id, src, dest);
        let head = header.to_bytes(total_len as u16);
        let mut packet: Vec<u8> = Vec::with_capacity(total_len);
        push_bytes(&mut packet, head.as_slice());
        push_bytes(&mut packet, payload);
        Ok(packet)
    }

    /// Reads a packet: its header, then its payload up to the total length
    /// the header gives. Fragments are refused.
    pub fn parse(data: &'a [u8]) -> (r: Result<Ipv4Packet<'a>, Ipv4Error>)
        ensures
            match r {
                Ok(p) => ipv4_packet_parse(data@) == Ok::<(Ipv4HeaderView, int), Ipv4Error>(
                    (p@.header, p@.data.len() as int),
                ) && p@.data == data@.subrange(0, p@.data.len() as int) && p@.payload
                    == data@.subrange(IP_HEADER_LEN as int, p@.data.len() as int),
                Err(e) => ipv4_packet_parse(data@) == Err::<(Ipv4HeaderView, int), Ipv4Error>(e),
            },
    {
        let header = match Ipv4Header::parse(data) {
            Ok(h) => h,
            Err(e) => {
                return Err(e);
            },
        };
        let total_len = read_be16(data, 2) as usize;
        if total_len < IP_HEADER_LEN {
            return Err(Ipv4Error::TotalLengthTooSmall { total_len });
        }
        if data.len() < total_len {
            return Err(Ipv4Error::TotalTruncated { len: data.len(), total_len });
        }
        if header.flags() % 2 != 0 || header.fragment_offset() != 0 {
            return Err(Ipv4Error::Fragmented);
        }
        Ok(
            Ipv4Packet {
                header,
                payload: vstd::slice::slice_subrange(data, IP_HEADER_LEN, total_len),
                data: vstd::slice::slice_subrange(data, 0, total_len),
            },
        )
    }
}

impl<'a> TryFrom<&'a [u8]> for Ipv4Packet<'a> {
    type Error = Ipv4Error;

    fn try_from(data: &'a [u8]) -> (r: Result<Ipv4Packet<'a>, Ipv4Error>)
        ensures
            match r {
                Ok(p) => ipv4_packet_parse(data@) == Ok::<(Ipv4HeaderView, int), Ipv4Error>(
                    (p@.header, p@.data.len() as int),
                ) && p@.data == data@.subrange(0, p@.data.len() as int) && p@.payload
                    == data@.subrange(IP_HEADER_LEN as int, p@.data.len() as int),
                Err(e) => ipv4_packet_parse(data@) == Err::<(Ipv4HeaderView, int), Ipv4Error>(e),
            },
    {
        Ipv4Packet::parse(data)
    }
}

impl<'a> vstd::std_specs::convert::TryFromSpecImpl<&'a [u8]> for Ipv4Packet<'a> {
    open spec fn obeys_try_from_spec() -> bool {
        false
    }

    open spec fn try_from_spec(v: &'a [u8]) -> Result<Ipv4Packet<'a>, Ipv4Error> {
        arbitrary()
    }
}

impl<'a> TryFrom<&'a [u8]> for Ipv4Header {
    type Error = Ipv4Error;

    fn try_from(data: &'a [u8]) -> (r: Result<Ipv4Header, Ipv4Error>)
        ensures
            match r {
                Ok(h) => ipv4_header_parse(data@) == Ok::<Ipv4HeaderView, Ipv4Error>(h@),
                Err(e) => ipv4_header_parse(data@) == Err::<Ipv4HeaderView, Ipv4Error>(e),
            },
    {
        Ipv4Header::parse(data)
    }
}

impl<'a> vstd::std_specs::convert::TryFromSpecImpl<&'a [u8]> for Ipv4Header {
    open spec fn obeys_try_from_spec() -> bool {
        false
    }

    open spec fn try_from_spec(v: &'a [u8]) -> Result<Ipv4Header, Ipv4Error> {
        arbitrary()
    }
}

/// A packet that [`Ipv4Packet::build`] produces reads back: the header with
/// the fields it was built from (and the checksum that was computed), the
/// total length, and the payload.
pub proof fn lemma_ipv4_packet_roundtrip(
    protocol: u8,
    id: u16,
    src: Ipv4Addr,
    dest: Ipv4Addr,
    payload: Seq<u8>,
)
    requires
        IP_HEADER_LEN + payload.len() <= u16::MAX,
    ensures
        ({
            let h = ipv4_new_header(protocol, id, src, dest);
            let total = (IP_HEADER_LEN + payload.len()) as u16;
            let bytes = ipv4_header_bytes(h, total) + payload;
            let c = internet_checksum(ipv4_header_raw(h, total, 0));
            &&& ipv4_packet_parse(bytes) == Ok::<(Ipv4HeaderView, int), Ipv4Error>(
                (Ipv4HeaderView { checksum: Some(c), ..h }, total as int),
            )
            &&& bytes.subrange(IP_HEADER_LEN as int, total as int) == payload
        }),
{
    broadcast use Ipv4Addr::lemma_len, Ipv4Addr::lemma_spec_from_view;

    let h = ipv4_new_header(protocol, id, src, dest);
    let total = (IP_HEADER_LEN + payload.len()) as u16;
    let head = ipv4_header_bytes(h, total);
    let bytes = head + payload;
    lemma_header_checksum_valid(h, total);
    assert(bytes.subrange(0, IP_HEADER_LEN as int) =~= head);
    assert(flags_and_offset(0, 0) == 0) by (bit_vector);
    assert(bytes.subrange(12, 16) =~= src@);
    assert(bytes.subrange(16, 20) =~= dest@);
    assert(be16_at(bytes, 2) == total);
    assert(be16_at(bytes, 4) == id);
    assert(be16_at(bytes, 6) == 0);
    assert(bytes.subrange(IP_HEADER_LEN as int, total as int) =~= payload);
}

/// The twenty bytes that [`Ipv4Header::to_bytes`] writes for a header made
/// by [`Ipv4Header::new`], whatever total length they announce, carry a
/// valid checksum and read back as that header, now with the checksum
/// they carry.
pub proof fn lemma_new_header_reads_back(protocol: u8, id: u16, src: Ipv4Addr, dest: Ipv4Addr, total_len: u16)
    ensures
        ({
            let h = ipv4_new_header(protocol, id, src, dest);
            let bytes = ipv4_header_bytes(h, total_len);
            let c = internet_checksum(ipv4_header_raw(h, total_len, 0));
            &&& internet_checksum(bytes) == 0
            &&& ipv4_header_parse(bytes) == Ok::<Ipv4HeaderView, Ipv4Error>(
                Ipv4HeaderView { checksum: Some(c), ..h },
            )
        }),
{
    broadcast use Ipv4Addr::lemma_len, Ipv4Addr::lemma_spec_from_view;

    let h = ipv4_new_header(protocol, id, src, dest);
    let bytes = ipv4_header_bytes(h, total_len);
    let c = internet_checksum(ipv4_header_raw(h, total_len, 0));
    lemma_header_checksum_valid(h, total_len);
    assert(bytes.subrange(0, IP_HEADER_LEN as int) =~= bytes);
    assert(flags_and_offset(0, 0) == 0) by (bit_vector);
    assert(bytes.subrange(12, 16) =~= src@);
    assert(bytes.subrange(16, 20) =~= dest@);
    assert(be16_at(bytes, 4) == id);
    assert(be16_at(bytes, 6) == 0);
    assert(be16_at(bytes, 10) == c);
}

} // verus!
