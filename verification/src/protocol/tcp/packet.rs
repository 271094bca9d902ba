use vstd::prelude::*;

use crate::protocol::checksum::{checksum16, internet_checksum, lemma_checksum_fills_field};
use crate::protocol::ipv4::addr::{Ipv4Addr, Ipv4Endpoint};
use crate::protocol::ipv4::packet::Ipv4Packet;
use crate::protocol::ipv4::pseudo::{pseudo_header_bytes, Ipv4PseudoHeader, IPV4_PSEUDO_HEADER_LEN};
use crate::protocol::ipv4::Ipv4Protocol;
use crate::protocol::tcp::header::{
    header_len_of, tcp_header_bytes, tcp_header_parse, tcp_new_header, TcpError, TcpFlags,
    TcpHeader, TcpHeaderView,
};
use crate::protocol::tcp::TCP_HEADER_LEN;
use crate::protocol::wire::{be16_at, be32_at, push_bytes};

verus! {

/// The pseudo-header bytes of a TCP segment of `length` bytes.
pub open spec fn tcp_pseudo_header_bytes(src: Ipv4Addr, dest: Ipv4Addr, length: u16) -> Seq<u8> {
    pseudo_header_bytes(src, dest, Ipv4Protocol::Tcp.spec_value(), length)
}

/// The bytes of a segment with `checksum` in its checksum field.
pub open spec fn tcp_segment_raw(
    src: Ipv4Endpoint,
    dest: Ipv4Endpoint,
    seq: u32,
    ack: u32,
    flags: u8,
    window_size: u16,
    checksum: u16,
    payload: Seq<u8>,
) -> Seq<u8> {
    tcp_header_bytes(
        tcp_new_header(
            src.spec_port(),
            dest.spec_port(),
            seq,
            ack,
            flags,
            window_size,
            checksum,
        ),
    ) + payload
}

/// The segment [`TcpPacket::build`] makes: the checksum is computed over the
/// pseudo header and the segment with a zero checksum field.
pub open spec fn tcp_segment(
    src: Ipv4Endpoint,
    dest: Ipv4Endpoint,
    seq: u32,
    ack: u32,
    flags: u8,
    window_size: u16,
    payload: Seq<u8>,
) -> Seq<u8> {
    let zeroed = tcp_segment_raw(src, dest, seq, ack, flags, window_size, 0, payload);
    let length = (TCP_HEADER_LEN + payload.len()) as u16;
    tcp_segment_raw(
        src,
        dest,
        seq,
        ack,
        flags,
        window_size,
        internet_checksum(
            tcp_pseudo_header_bytes(src.spec_address(), dest.spec_address(), length) + zeroed,
        ),
        payload,
    )
}

/// The header of the TCP segment `data` (carried from `src` to `dest`), or
/// why it is not a valid one.
pub open spec fn tcp_packet_parse(src: Ipv4Addr, dest: Ipv4Addr, data: Seq<u8>) -> Result<
    TcpHeaderView,
    TcpError,
> {
    match tcp_header_parse(data) {
        Err(e) => Err(e),
        Ok(h) => {
            let header_len = header_len_of(h.data_offset);
            if data.len() < header_len {
                Err(TcpError::HeaderTruncated { len: data.len() as usize, header_len: header_len as usize })
            } else if internet_checksum(
                tcp_pseudo_header_bytes(src, dest, data.len() as u16) + data,
            ) != 0 {
                Err(TcpError::InvalidChecksum)
            } else {
                Ok(h)
            }
        },
    }
}

/// A TCP segment with the endpoints it travels between.
#[derive(Debug, Clone, Copy, PartialEq, Eq)]
pub struct TcpPacket<'a> {
    src: Ipv4Endpoint,
    dest: Ipv4Endpoint,
    header: TcpHeader,
    options: &'a [u8],
    payload: &'a [u8],
    data: &'a [u8],
}

/// What a [`TcpPacket`] holds.
pub struct TcpPacketView {
    pub src: Ipv4Endpoint,
    pub dest: Ipv4Endpoint,
    pub header: TcpHeaderView,
    pub options: Seq<u8>,
    pub payload: Seq<u8>,
    pub data: Seq<u8>,
}

impl<'a> View for TcpPacket<'a> {
    type V = TcpPacketView;

    closed spec fn view(&self) -> TcpPacketView {
        TcpPacketView {
            src: self.src,
            dest: self.dest,
            header: self.header@,
            options: self.options@,
            payload: self.payload@,
            data: self.data@,
        }
    }
}

impl<'a> TcpPacket<'a> {
    pub fn src(&self) -> (r: Ipv4Endpoint)
        ensures
            r == self@.src,
    {
        self.src
    }

    pub fn dest(&self) -> (r: Ipv4Endpoint)
        ensures
            r == self@.dest,
    {
        self.dest
    }

    pub fn header(&self) -> (r: TcpHeader)
        ensures
            r@ == self@.header,
    {
        self.header
    }

    pub fn options(&self) -> (r: &'a [u8])
        ensures
            r@ == self@.options,
    {
        self.options
    }

    pub fn payload(&self) -> (r: &'a [u8])
        ensures
            r@ == self@.payload,
    {
        self.payload
    }

    pub fn data(&self) -> (r: &'a [u8])
        ensures
            r@ == self@.data,
    {
        self.data
    }

    /// Builds a segment with a five-word header and its checksum filled in.
    pub fn build(
        src: Ipv4Endpoint,
        dest: Ipv4Endpoint,
        seq: u32,
        ack: u32,
        flags: TcpFlags,
        window_size: u16,
        payload: &[u8],
    ) -> (r: Result<Vec<u8>, TcpError>)
        ensures
            TCP_HEADER_LEN + payload@.len() > u16::MAX ==> r == Err::<Vec<u8>, TcpError>(
                TcpError::PayloadTooLarge { len: payload@.len() as usize },
            ),
            TCP_HEADER_LEN + payload@.len() <= u16::MAX ==> (r matches Ok(bytes) && bytes@
                == tcp_segment(src, dest, seq, ack, flags@, window_size, payload@)),
    {
        let length = match TCP_HEADER_LEN.checked_add(payload.len()) {
            Some(length) => length,
            None => {
                return Err(TcpError::PayloadTooLarge { len: payload.len() });
            },
        };
        if length > 0xffff {
            return Err(TcpError::PayloadTooLarge { len: payload.len() });
        }
        let header = TcpHeader::new(src.port(), dest.port(), seq, ack, flags, window_size, 0);
        let head = header.to_bytes();
        let mut data: Vec<u8> = Vec::with_capacity(length);
        push_bytes(&mut data, head.as_slice());
        push_bytes(&mut data, payload);
        let pseudo_header = Ipv4PseudoHeader::new(
            src.address(),
            dest.address(),
            Ipv4Protocol::Tcp,
            length as u16,
        );
        let mut checksum_data: Vec<u8> = Vec::with_capacity(IPV4_PSEUDO_HEADER_LEN + length);
        pseudo_header.push_to(&mut checksum_data);
        push_bytes(&mut checksum_data, data.as_slice());
        let checksum = checksum16(checksum_data.as_slice());
        data.set(16, (checksum / 256) as u8);
        data.set(17, (checksum % 256) as u8);
        assert(data@ =~= tcp_segment(src, dest, seq, ack, flags@, window_size, payload@));
        Ok(data)
    }

    /// Reads the TCP segment that `packet` carries, checking its checksum.
    pub fn from_ipv4(packet: Ipv4Packet<'a>) -> (r: Result<TcpPacket<'a>, TcpError>)
        ensures
            match r {
                Ok(p) => {
                    let hl = header_len_of(p@.header.data_offset);
                    &&& tcp_packet_parse(packet@.header.src, packet@.header.dest, packet@.payload)
                        == Ok::<TcpHeaderView, TcpError>(p@.header)
                    &&& p@.data == packet@.payload
                    &&& p@.options == packet@.payload.subrange(TCP_HEADER_LEN as int, hl)
                    &&& p@.payload == packet@.payload.subrange(hl, packet@.payload.len() as int)
                    &&& p@.src.spec_address() == packet@.header.src
                    &&& p@.src.spec_port() == p@.header.src_port
                    &&& p@.dest.spec_address() == packet@.header.dest
                    &&& p@.dest.spec_port() == p@.header.dest_port
                },
                Err(e) => tcp_packet_parse(packet@.header.src, packet@.header.dest, packet@.payload)
                    == Err::<TcpHeaderView, TcpError>(e),
            },
    {
        let data = packet.payload();
        let header = match TcpHeader::parse(data) {
            Ok(h) => h,
            Err(e) => {
                return Err(e);
            },
        };
        let header_len = header.header_len();
        if data.len() < header_len {
            return Err(TcpError::HeaderTruncated { len: data.len(), header_len });
        }
        let ip_header = packet.header();
        let pseudo_header = Ipv4PseudoHeader::new(
            ip_header.src(),
            ip_header.dest(),
            Ipv4Protocol::Tcp,
            data.len() as u16,
        );
        let mut checksum_data: Vec<u8> = Vec::new();
        pseudo_header.push_to(&mut checksum_data);
        push_bytes(&mut checksum_data, data);
        if checksum16(checksum_data.as_slice()) != 0 {
            return Err(TcpError::InvalidChecksum);
        }
        Ok(
            TcpPacket {
                src: Ipv4Endpoint::new(ip_header.src(), header.src_port()),
                dest: Ipv4Endpoint::new(ip_header.dest(), header.dest_port()),
                header,
                options: vstd::slice::slice_subrange(data, TCP_HEADER_LEN, header_len),
                payload: vstd::slice::slice_subrange(data, header_len, data.len()),
                data,
            },
        )
    }
}

/// The twenty bytes that [`TcpHeader::to_bytes`] writes for a header with
/// a valid data offset (at least five words, low four bits clear) and no
/// undefined flag bits read back as that header, whatever follows them,
/// and what follows them is left as it is.
#[verifier::rlimit(40)]
pub proof fn lemma_tcp_header_fields(h: TcpHeaderView, payload: Seq<u8>)
    requires
        header_len_of(h.data_offset) >= TCP_HEADER_LEN,
        h.data_offset % 16 == 0,
        h.flags & 0x3f == h.flags,
    ensures
        tcp_header_parse(tcp_header_bytes(h) + payload) == Ok::<TcpHeaderView, TcpError>(h),
        (tcp_header_bytes(h) + payload).subrange(TCP_HEADER_LEN as int, TCP_HEADER_LEN + payload.len())
            == payload,
{
    let s = tcp_header_bytes(h) + payload;
    assert(be16_at(s, 0) == h.src_port);
    assert(be16_at(s, 2) == h.dest_port);
    assert(be32_at(s, 4) == h.seq);
    assert(be32_at(s, 8) == h.ack);
    assert(be16_at(s, 14) == h.window_size);
    assert(be16_at(s, 16) == h.checksum);
    assert(be16_at(s, 18) == h.urgent_pointer);
    assert(s[12] == h.data_offset);
    assert(s[13] == h.flags);
    assert(s.subrange(TCP_HEADER_LEN as int, TCP_HEADER_LEN + payload.len()) =~= payload);
}

/// The checksum that [`TcpPacket::build`] writes makes the segment check.
proof fn lemma_tcp_segment_checksum(
    src: Ipv4Endpoint,
    dest: Ipv4Endpoint,
    seq: u32,
    ack: u32,
    flags: u8,
    window_size: u16,
    payload: Seq<u8>,
)
    requires
        TCP_HEADER_LEN + payload.len() <= u16::MAX,
    ensures
        ({
            let s = tcp_segment(src, dest, seq, ack, flags, window_size, payload);
            &&& s.len() == TCP_HEADER_LEN + payload.len()
            &&& internet_checksum(
                tcp_pseudo_header_bytes(src.spec_address(), dest.spec_address(), s.len() as u16) + s,
            ) == 0
        }),
{
    broadcast use Ipv4Addr::lemma_len;

    let length = (TCP_HEADER_LEN + payload.len()) as u16;
    let h0 = tcp_new_header(src.spec_port(), dest.spec_port(), seq, ack, flags, window_size, 0);
    let head0 = tcp_header_bytes(h0);
    let zeroed = head0 + payload;
    let pseudo = tcp_pseudo_header_bytes(src.spec_address(), dest.spec_address(), length);
    let whole = pseudo + zeroed;
    let c = internet_checksum(whole);
    let hc = tcp_new_header(src.spec_port(), dest.spec_port(), seq, ack, flags, window_size, c);
    let headc = tcp_header_bytes(hc);
    let s = headc + payload;
    assert(s == tcp_segment(src, dest, seq, ack, flags, window_size, payload));
    assert(pseudo.len() == 12);
    assert(head0.len() == 20);
    assert(headc =~= head0.update(16, (c / 256) as u8).update(17, (c % 256) as u8));
    assert(pseudo + s =~= whole.update(28, (c / 256) as u8).update(29, (c % 256) as u8));
    lemma_checksum_fills_field(whole, 28);
}

/// A segment that [`TcpPacket::build`] makes reads back, with the addresses
/// it was built for: its ports, numbers, flags and window, and its payload.
pub proof fn lemma_tcp_segment_roundtrip(
    src: Ipv4Endpoint,
    dest: Ipv4Endpoint,
    seq: u32,
    ack: u32,
    flags: u8,
    window_size: u16,
    payload: Seq<u8>,
)
    requires
        TCP_HEADER_LEN + payload.len() <= u16::MAX,
        flags & 0x3f == flags,
    ensures
        ({
            let s = tcp_segment(src, dest, seq, ack, flags, window_size, payload);
            &&& tcp_packet_parse(src.spec_address(), dest.spec_address(), s) matches Ok(h) && h.src_port
                == src.spec_port() && h.dest_port == dest.spec_port() && h.seq == seq && h.ack
                == ack && h.flags == flags && h.window_size == window_size
                && header_len_of(h.data_offset) == TCP_HEADER_LEN
            &&& s.subrange(TCP_HEADER_LEN as int, s.len() as int) == payload
        }),
{
    let s = tcp_segment(src, dest, seq, ack, flags, window_size, payload);
    lemma_tcp_segment_checksum(src, dest, seq, ack, flags, window_size, payload);
    let zeroed = tcp_segment_raw(src, dest, seq, ack, flags, window_size, 0, payload);
    let length = (TCP_HEADER_LEN + payload.len()) as u16;
    let c = internet_checksum(
        tcp_pseudo_header_bytes(src.spec_address(), dest.spec_address(), length) + zeroed,
    );
    let hc = tcp_new_header(src.spec_port(), dest.spec_port(), seq, ack, flags, window_size, c);
    lemma_tcp_header_fields(hc, payload);
    assert(header_len_of(0x50) == 20);
}

} // verus!
