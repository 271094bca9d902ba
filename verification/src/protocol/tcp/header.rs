use vstd::prelude::*;

use crate::protocol::tcp::TCP_HEADER_LEN;
use crate::protocol::wire::{be16_at, be16_bytes, be32_at, be32_bytes, push_be16, push_be32, read_be16, read_be32, seq_len};

verus! {

/// The control bits of a TCP segment.
#[derive(Debug, Clone, Copy, PartialEq, Eq, Hash, Structural)]
pub struct TcpFlags {
    pub bits: u8,
}

/// The bits that name a defined flag.
pub const TCP_FLAGS_ALL: u8 = 0x3f;

/// No more data from the sender.
pub const TCP_FIN: u8 = 0x01;

/// Synchronize sequence numbers.
pub const TCP_SYN: u8 = 0x02;

/// Reset the connection.
pub const TCP_RST: u8 = 0x04;

/// Push function.
pub const TCP_PSH: u8 = 0x08;

/// The acknowledgment field is significant.
pub const TCP_ACK: u8 = 0x10;

/// The urgent pointer field is significant.
pub const TCP_URG: u8 = 0x20;

/// `flags` has every bit of `other`.
pub open spec fn flags_contain(flags: u8, other: u8) -> bool {
    flags & other == other
}

impl View for TcpFlags {
    type V = u8;

    open spec fn view(&self) -> u8 {
        self.bits
    }
}

impl TcpFlags {
    /// A set of flags is determined by its bits.
    pub proof fn lemma_view(self, other: TcpFlags)
        ensures
            self@ == other@ ==> self == other,
    {
    }

    pub fn empty() -> (r: TcpFlags)
        ensures
            r@ == 0,
    {
        TcpFlags { bits: 0 }
    }

    pub fn fin() -> (r: TcpFlags)
        ensures
            r@ == TCP_FIN,
    {
        TcpFlags { bits: TCP_FIN }
    }

    pub fn syn() -> (r: TcpFlags)
        ensures
            r@ == TCP_SYN,
    {
        TcpFlags { bits: TCP_SYN }
    }

    pub fn rst() -> (r: TcpFlags)
        ensures
            r@ == TCP_RST,
    {
        TcpFlags { bits: TCP_RST }
    }

    pub fn psh() -> (r: TcpFlags)
        ensures
            r@ == TCP_PSH,
    {
        TcpFlags { bits: TCP_PSH }
    }

    pub fn ack() -> (r: TcpFlags)
        ensures
            r@ == TCP_ACK,
    {
        TcpFlags { bits: TCP_ACK }
    }

    pub fn urg() -> (r: TcpFlags)
        ensures
            r@ == TCP_URG,
    {
        TcpFlags { bits: TCP_URG }
    }

    /// The raw bits.
    pub fn bits(&self) -> (r: u8)
        ensures
            r == self@,
    {
        self.bits
    }

    /// The flags named by `bits`; bits that name no flag are dropped.
    pub fn from_bits_truncate(bits: u8) -> (r: TcpFlags)
        ensures
            r@ == bits & TCP_FLAGS_ALL,
    {
        TcpFlags { bits: bits & TCP_FLAGS_ALL }
    }

    /// The flags set in either.
    pub fn union(self, other: TcpFlags) -> (r: TcpFlags)
        ensures
            r@ == self@ | other@,
    {
        TcpFlags { bits: self.bits | other.bits }
    }

    /// Every flag of `other` is set.
    pub fn contains(&self, other: TcpFlags) -> (r: bool)
        ensures
            r == flags_contain(self@, other@),
    {
        self.bits & other.bits == other.bits
    }

    /// Some flag of `other` is set.
    pub fn intersects(&self, other: TcpFlags) -> (r: bool)
        ensures
            r == (self@ & other@ != 0),
    {
        self.bits & other.bits != 0
    }
}

/// The fixed twenty-byte TCP header.
#[derive(Debug, Clone, Copy, PartialEq, Eq, Structural)]
pub struct TcpHeader {
    src_port: u16,
    dest_port: u16,
    seq: u32,
    ack: u32,
    data_offset: u8,
    flags: TcpFlags,
    window_size: u16,
    checksum: u16,
    urgent_pointer: u16,
}

/// What a [`TcpHeader`] holds.
pub struct TcpHeaderView {
    pub src_port: u16,
    pub dest_port: u16,
    pub seq: u32,
    pub ack: u32,
    pub data_offset: u8,
    pub flags: u8,
    pub window_size: u16,
    pub checksum: u16,
    pub urgent_pointer: u16,
}

impl View for TcpHeader {
    type V = TcpHeaderView;

    closed spec fn view(&self) -> TcpHeaderView {
        TcpHeaderView {
            src_port: self.src_port,
            dest_port: self.dest_port,
            seq: self.seq,
            ack: self.ack,
            data_offset: self.data_offset,
            flags: self.flags@,
            window_size: self.window_size,
            checksum: self.checksum,
            urgent_pointer: self.urgent_pointer,
        }
    }
}

/// Errors reading or building a TCP segment.
#[derive(Debug, Clone, Copy, PartialEq, Eq, Structural)]
pub enum TcpError {
    TooShort { len: usize },
    HeaderLengthTooSmall { header_len: usize },
    InvalidHeaderLength { data_offset: u8 },
    HeaderTruncated { len: usize, header_len: usize },
    InvalidChecksum,
    PayloadTooLarge { len: usize },
}

/// The header length in bytes that a data-offset byte gives.
pub open spec fn header_len_of(data_offset: u8) -> int {
    (data_offset / 16) as int * 4
}

/// The TCP header that `data` starts with, or why it is not one.
pub open spec fn tcp_header_parse(data: Seq<u8>) -> Result<TcpHeaderView, TcpError> {
    if data.len() < TCP_HEADER_LEN {
        Err(TcpError::TooShort { len: seq_len(data) })
    } else if header_len_of(data[12]) < TCP_HEADER_LEN {
        Err(TcpError::HeaderLengthTooSmall { header_len: header_len_of(data[12]) as usize })
    } else if data[12] % 16 != 0 {
        Err(TcpError::InvalidHeaderLength { data_offset: data[12] })
    } else {
        Ok(
            TcpHeaderView {
                src_port: be16_at(data, 0),
                dest_port: be16_at(data, 2),
                seq: be32_at(data, 4),
                ack: be32_at(data, 8),
                data_offset: data[12],
                flags: data[13] & TCP_FLAGS_ALL,
                window_size: be16_at(data, 14),
                checksum: be16_at(data, 16),
                urgent_pointer: be16_at(data, 18),
            },
        )
    }
}

/// The twenty bytes that [`TcpHeader::to_bytes`] writes.
pub open spec fn tcp_header_bytes(h: TcpHeaderView) -> Seq<u8> {
    be16_bytes(h.src_port) + be16_bytes(h.dest_port) + be32_bytes(h.seq) + be32_bytes(h.ack) + seq![
        h.data_offset,
        h.flags,
    ] + be16_bytes(h.window_size) + be16_bytes(h.checksum) + be16_bytes(h.urgent_pointer)
}

/// The header [`TcpHeader::new`] makes: five words long, no urgent data.
pub open spec fn tcp_new_header(
    src_port: u16,
    dest_port: u16,
    seq: u32,
    ack: u32,
    flags: u8,
    window_size: u16,
    checksum: u16,
) -> TcpHeaderView {
    TcpHeaderView {
        src_port,
        dest_port,
        seq,
        ack,
        data_offset: 0x50,
        flags,
        window_size,
        checksum,
        urgent_pointer: 0,
    }
}

impl TcpHeader {
    /// A header is determined by what it holds.
    pub proof fn lemma_view(self, other: TcpHeader)
        ensures
            self@ == other@ ==> self == other,
    {
        self.flags.lemma_view(other.flags);
    }

    /// A header of five words with the given fields and no urgent data.
    pub fn new(
        src_port: u16,
        dest_port: u16,
        seq: u32,
        ack: u32,
        flags: TcpFlags,
        window_size: u16,
        checksum: u16,
    ) -> (r: TcpHeader)
        ensures
            r@ == tcp_new_header(src_port, dest_port, seq, ack, flags@, window_size, checksum),
    {
        TcpHeader {
            src_port,
            dest_port,
            seq,
            ack,
            data_offset: 0x50,
            flags,
            window_size,
            checksum,
            urgent_pointer: 0,
        }
    }

    pub fn src_port(&self) -> (r: u16)
        ensures
            r == self@.src_port,
    {
        self.src_port
    }

    pub fn dest_port(&self) -> (r: u16)
        ensures
            r == self@.dest_port,
    {
        self.dest_port
    }

    pub fn sequence_number(&self) -> (r: u32)
        ensures
            r == self@.seq,
    {
        self.seq
    }

    pub fn ack(&self) -> (r: u32)
        ensures
            r == self@.ack,
    {
        self.ack
    }

    pub fn data_offset(&self) -> (r: u8)
        ensures
            r == self@.data_offset,
    {
        self.data_offset
    }

    pub fn flags(&self) -> (r: TcpFlags)
        ensures
            r@ == self@.flags,
    {
        self.flags
    }

    pub fn window_size(&self) -> (r: u16)
        ensures
            r == self@.window_size,
    {
        self.window_size
    }

    pub fn checksum(&self) -> (r: u16)
        ensures
            r == self@.checksum,
    {
        self.checksum
    }

    pub fn urgent_pointer(&self) -> (r: u16)
        ensures
            r == self@.urgent_pointer,
    {
        self.urgent_pointer
    }

    /// The header length in bytes, options included.
    pub fn header_len(&self) -> (r: usize)
        ensures
            r == header_len_of(self@.data_offset),
    {
        (self.data_offset / 16) as usize * 4
    }

    /// The twenty header bytes, in network byte order.
    pub fn to_bytes(&self) -> (r: [u8; 20])
        ensures
            r@ == tcp_header_bytes(self@),
    {
        let mut v: Vec<u8> = Vec::with_capacity(TCP_HEADER_LEN);
        push_be16(&mut v, self.src_port);
        push_be16(&mut v, self.dest_port);
        push_be32(&mut v, self.seq);
        push_be32(&mut v, self.ack);
        v.push(self.data_offset);
        v.push(self.flags.bits());
        push_be16(&mut v, self.window_size);
        push_be16(&mut v, self.checksum);
        push_be16(&mut v, self.urgent_pointer);
        assert(v@ =~= tcp_header_bytes(self@));
        let r = [
            v[0], v[1], v[2], v[3], v[4], v[5], v[6], v[7], v[8], v[9], v[10], v[11], v[12], v[13],
            v[14], v[15], v[16], v[17], v[18], v[19],
        ];
        assert(r@ =~= tcp_header_bytes(self@));
        r
    }

    /// Reads the header that `data` starts with; options are not read.
    pub fn parse(data: &[u8]) -> (r: Result<TcpHeader, TcpError>)
        ensures
            match r {
                Ok(h) => tcp_header_parse(data@) == Ok::<TcpHeaderView, TcpError>(h@),
                Err(e) => tcp_header_parse(data@) == Err::<TcpHeaderView, TcpError>(e),
            },
    {
        if data.len() < TCP_HEADER_LEN {
            return Err(TcpError::TooShort { len: data.len() });
        }
        let data_offset = data[12];
        let header_len = (data_offset / 16) as usize * 4;
        if header_len < TCP_HEADER_LEN {
            return Err(TcpError::HeaderLengthTooSmall { header_len });
        }
        if data_offset % 16 != 0 {
            return Err(TcpError::InvalidHeaderLength { data_offset });
        }
        Ok(
            TcpHeader {
                src_port: read_be16(data, 0),
                dest_port: read_be16(data, 2),
                seq: read_be32(data, 4),
                ack: read_be32(data, 8),
                data_offset,
                flags: TcpFlags::from_bits_truncate(data[13]),
                window_size: read_be16(data, 14),
                checksum: read_be16(data, 16),
                urgent_pointer: read_be16(data, 18),
            },
        )
    }
}

impl<'a> TryFrom<&'a [u8]> for TcpHeader {
    type Error = TcpError;

    fn try_from(data: &'a [u8]) -> (r: Result<TcpHeader, TcpError>)
        ensures
            match r {
                Ok(h) => tcp_header_parse(data@) == Ok::<TcpHeaderView, TcpError>(h@),
                Err(e) => tcp_header_parse(data@) == Err::<TcpHeaderView, TcpError>(e),
            },
    {
        TcpHeader::parse(data)
    }
}

impl<'a> vstd::std_specs::convert::TryFromSpecImpl<&'a [u8]> for TcpHeader {
    open spec fn obeys_try_from_spec() -> bool {
        false
    }

    open spec fn try_from_spec(v: &'a [u8]) -> Result<TcpHeader, TcpError> {
        arbitrary()
    }
}

} // verus!
