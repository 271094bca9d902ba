use vstd::prelude::*;

use crate::protocol::text::{
    ascii_bytes, ascii_only, hex2_text, hex_digit_value, hex_value, is_hex_digit,
    lemma_ascii_concat, lemma_ascii_encoding, lemma_hex2_text, lemma_split_concat,
    lemma_split_single, push_hex2, split_bytes, split_on, text_bytes,
};
use crate::protocol::wire::{be16_at, be16_bytes, push_be16, push_bytes, read_be16};

verus! {

/// Length of an Ethernet header in bytes.
pub const HEADER_LEN: usize = 14;

/// Shortest Ethernet frame in bytes.
pub const FRAME_LEN_MIN: usize = 60;

/// Longest Ethernet frame in bytes.
pub const FRAME_LEN_MAX: usize = 1514;

/// Shortest Ethernet payload in bytes.
pub const PAYLOAD_LEN_MIN: usize = FRAME_LEN_MIN - HEADER_LEN;

/// Longest Ethernet payload in bytes.
pub const PAYLOAD_LEN_MAX: usize = FRAME_LEN_MAX - HEADER_LEN;

/// Protocols carried in an Ethernet frame.
#[derive(Debug, Clone, Copy, PartialEq, Eq, Hash)]
pub enum EtherType {
    Ipv4,
    Arp,
    Ipv6,
}

impl EtherType {
    /// The numeric EtherType.
    pub open spec fn spec_value(self) -> u16 {
        match self {
            EtherType::Ipv4 => 0x0800,
            EtherType::Arp => 0x0806,
            EtherType::Ipv6 => 0x86dd,
        }
    }

    /// The numeric EtherType.
    #[verifier::when_used_as_spec(spec_value)]
    pub fn value(self) -> (r: u16)
        ensures
            r == self.spec_value(),
    {
        match self {
            EtherType::Ipv4 => 0x0800,
            EtherType::Arp => 0x0806,
            EtherType::Ipv6 => 0x86dd,
        }
    }
}

/// A field of a MAC address in text: two hexadecimal digits, or a `+` and
/// one hexadecimal digit.
pub open spec fn mac_field_ok(p: Seq<u8>) -> bool {
    p.len() == 2 && is_hex_digit(p[1]) && (is_hex_digit(p[0]) || p[0] == 43)
}

/// The byte that a well-formed field writes.
pub open spec fn mac_field_value(p: Seq<u8>) -> u8 {
    if p[0] == 43 {
        hex_value(p[1]) as u8
    } else {
        (hex_value(p[0]) * 16 + hex_value(p[1])) as u8
    }
}

/// `s` is six well-formed fields separated by colons.
pub open spec fn mac_text_ok(s: Seq<u8>) -> bool {
    let parts = split_on(s, 58);
    parts.len() == 6 && forall|i: int| 0 <= i < 6 ==> mac_field_ok(#[trigger] parts[i])
}

/// The bytes that the six fields of `s` write.
pub open spec fn mac_text_value(s: Seq<u8>) -> Seq<u8> {
    let parts = split_on(s, 58);
    Seq::new(6, |i: int| mac_field_value(parts[i]))
}

/// The text of an address: six pairs of lower-case hexadecimal digits
/// separated by colons.
pub open spec fn mac_text(m: Seq<u8>) -> Seq<char> {
    hex2_text(m[0]) + seq![':'] + hex2_text(m[1]) + seq![':'] + hex2_text(m[2]) + seq![':']
        + hex2_text(m[3]) + seq![':'] + hex2_text(m[4]) + seq![':'] + hex2_text(m[5])
}

/// Reading back the text of an address gives the address: the text is ASCII,
/// its bytes are six well-formed fields, and they write the address's bytes.
pub proof fn lemma_mac_text_roundtrip(m: MacAddr)
    ensures
        ascii_only(mac_text(m@)),
        mac_text_ok(vstd::utf8::encode_utf8(mac_text(m@))),
        mac_text_value(vstd::utf8::encode_utf8(mac_text(m@))) == m@,
{
    m.lemma_view(m);
    let colon = seq![':'];
    let c = seq![58u8];
    assert(ascii_bytes(colon) =~= c);
    assert(ascii_only(colon));
    let h = |k: int| hex2_text(m@[k]);
    let b = |k: int| ascii_bytes(hex2_text(m@[k]));
    lemma_hex2_text(m@[0]);
    lemma_hex2_text(m@[1]);
    lemma_hex2_text(m@[2]);
    lemma_hex2_text(m@[3]);
    lemma_hex2_text(m@[4]);
    lemma_hex2_text(m@[5]);
    let t1 = h(0) + colon;
    lemma_ascii_concat(h(0), colon);
    let t2 = t1 + h(1);
    lemma_ascii_concat(t1, h(1));
    let t3 = t2 + colon;
    lemma_ascii_concat(t2, colon);
    let t4 = t3 + h(2);
    lemma_ascii_concat(t3, h(2));
    let t5 = t4 + colon;
    lemma_ascii_concat(t4, colon);
    let t6 = t5 + h(3);
    lemma_ascii_concat(t5, h(3));
    let t7 = t6 + colon;
    lemma_ascii_concat(t6, colon);
    let t8 = t7 + h(4);
    lemma_ascii_concat(t7, h(4));
    let t9 = t8 + colon;
    lemma_ascii_concat(t8, colon);
    let t10 = t9 + h(5);
    lemma_ascii_concat(t9, h(5));
    assert(t10 == mac_text(m@));
    lemma_ascii_encoding(t10);
    let x1 = b(0);
    let x2 = x1 + c + b(1);
    let x3 = x2 + c + b(2);
    let x4 = x3 + c + b(3);
    let x5 = x4 + c + b(4);
    let x6 = x5 + c + b(5);
    assert(ascii_bytes(t10) =~= x6);
    assert forall|k: int| 0 <= k < 6 implies split_on(#[trigger] b(k), 58) == seq![b(k)] by {
        lemma_hex2_text(m@[k]);
        assert forall|i: int| 0 <= i < b(k).len() implies #[trigger] b(k)[i] != 58 by {
            assert(i == 0 || i == 1);
        }
        lemma_split_single(b(k), 58);
    }
    lemma_split_concat(x1, b(1), 58);
    lemma_split_concat(x2, b(2), 58);
    lemma_split_concat(x3, b(3), 58);
    lemma_split_concat(x4, b(4), 58);
    lemma_split_concat(x5, b(5), 58);
    let parts = split_on(x6, 58);
    assert(split_on(x1, 58) == seq![b(0)]);
    assert(split_on(b(1), 58) == seq![b(1)]);
    assert(split_on(b(2), 58) == seq![b(2)]);
    assert(split_on(b(3), 58) == seq![b(3)]);
    assert(split_on(b(4), 58) == seq![b(4)]);
    assert(split_on(b(5), 58) == seq![b(5)]);
    assert(parts =~= seq![b(0), b(1), b(2), b(3), b(4), b(5)]);
    assert forall|k: int| 0 <= k < 6 implies mac_field_ok(#[trigger] parts[k])
        && mac_field_value(parts[k]) == m@[k] by {
        lemma_hex2_text(m@[k]);
        assert(parts[k] == b(k));
    }
    assert(mac_text_value(x6) =~= m@);
}

/// The text of a MAC address was not six colon-separated pairs of
/// hexadecimal digits.
#[derive(Debug, Clone, Copy, PartialEq, Eq, Structural)]
pub struct MacAddrParseError;

impl MacAddrParseError {
    /// The message that describes the error.
    pub fn message(&self) -> (r: &'static str)
        ensures
            r@ == "invalid MAC address"@,
    {
        "invalid MAC address"
    }
}

/// The byte that the field `p` writes, where it is well formed.
fn parse_mac_field(p: &[u8]) -> (r: Option<u8>)
    ensures
        r == (if mac_field_ok(p@) {
            Some(mac_field_value(p@))
        } else {
            None::<u8>
        }),
{
    if p.len() != 2 {
        return None;
    }
    match hex_digit_value(p[1]) {
        None => None,
        Some(lo) => {
            if p[0] == 43 {
                Some(lo)
            } else {
                match hex_digit_value(p[0]) {
                    None => None,
                    Some(hi) => Some(hi * 16 + lo),
                }
            }
        },
    }
}

/// A 48-bit Ethernet hardware address.
#[derive(Debug, Clone, Copy, PartialEq, Eq, Hash, Structural)]
pub struct MacAddr {
    b0: u8,
    b1: u8,
    b2: u8,
    b3: u8,
    b4: u8,
    b5: u8,
}

impl View for MacAddr {
    type V = Seq<u8>;

    closed spec fn view(&self) -> Seq<u8> {
        seq![self.b0, self.b1, self.b2, self.b3, self.b4, self.b5]
    }
}

impl MacAddr {
    /// The address with the given bytes.
    pub closed spec fn spec_new(bytes: [u8; 6]) -> MacAddr {
        MacAddr { b0: bytes[0], b1: bytes[1], b2: bytes[2], b3: bytes[3], b4: bytes[4], b5: bytes[5] }
    }

    pub fn new(bytes: [u8; 6]) -> (r: MacAddr)
        ensures
            r@ == bytes@,
            r == MacAddr::spec_new(bytes),
    {
        let r = MacAddr { b0: bytes[0], b1: bytes[1], b2: bytes[2], b3: bytes[3], b4: bytes[4], b5: bytes[5] };
        assert(r@ =~= bytes@);
        r
    }

    /// The all-zero address.
    pub fn any() -> (r: MacAddr)
        ensures
            r@ == seq![0u8, 0, 0, 0, 0, 0],
    {
        MacAddr { b0: 0, b1: 0, b2: 0, b3: 0, b4: 0, b5: 0 }
    }

    /// The broadcast address `ff:ff:ff:ff:ff:ff`.
    pub fn broadcast() -> (r: MacAddr)
        ensures
            r@ == seq![0xffu8, 0xff, 0xff, 0xff, 0xff, 0xff],
    {
        MacAddr { b0: 0xff, b1: 0xff, b2: 0xff, b3: 0xff, b4: 0xff, b5: 0xff }
    }

    /// The six address bytes.
    pub fn bytes(&self) -> (r: [u8; 6])
        ensures
            r@ == self@,
    {
        let r = [self.b0, self.b1, self.b2, self.b3, self.b4, self.b5];
        assert(r@ =~= self@);
        r
    }

    /// Appends the six address bytes to `buf`.
    pub fn push_to(&self, buf: &mut Vec<u8>)
        ensures
            final(buf)@ == old(buf)@ + self@,
    {
        buf.push(self.b0);
        buf.push(self.b1);
        buf.push(self.b2);
        buf.push(self.b3);
        buf.push(self.b4);
        buf.push(self.b5);
        assert(final(buf)@ =~= old(buf)@ + self@);
    }

    /// Every address has six bytes, and an address is determined by them.
    pub proof fn lemma_view(self, other: MacAddr)
        ensures
            self@.len() == 6,
            self@ == other@ ==> self == other,
    {
        if self@ == other@ {
            assert(self@[0] == other@[0] && self@[1] == other@[1] && self@[2] == other@[2]
                && self@[3] == other@[3] && self@[4] == other@[4] && self@[5] == other@[5]);
        }
    }

    /// Reads an address written as six colon-separated pairs of hexadecimal
    /// digits, such as `02:00:5e:10:20:30`.
    pub fn parse(s: &str) -> (r: Result<MacAddr, MacAddrParseError>)
        ensures
            r is Ok <==> mac_text_ok(text_bytes(s)),
            r matches Ok(m) ==> m@ == mac_text_value(text_bytes(s)),
    {
        let parts = split_bytes(s.as_bytes(), 58);
        if parts.len() != 6 {
            return Err(MacAddrParseError);
        }
        let ghost want = split_on(text_bytes(s), 58);
        let mut bytes: Vec<u8> = Vec::new();
        let mut i: usize = 0;
        while i < 6
            invariant
                parts@.len() == 6,
                want == split_on(text_bytes(s), 58),
                want.len() == 6,
                forall|j: int| 0 <= j < 6 ==> #[trigger] parts@[j]@ == want[j],
                i <= 6,
                bytes@.len() == i,
                forall|j: int| 0 <= j < i ==> mac_field_ok(#[trigger] want[j]),
                forall|j: int| 0 <= j < i ==> bytes@[j] == mac_field_value(#[trigger] want[j]),
            decreases 6 - i,
        {
            match parse_mac_field(parts[i].as_slice()) {
                None => {
                    assert(!mac_field_ok(want[i as int]));
                    return Err(MacAddrParseError);
                },
                Some(b) => {
                    bytes.push(b);
                },
            }
            i = i + 1;
        }
        let m = MacAddr::from_slice_at(bytes.as_slice(), 0);
        assert(m@ =~= mac_text_value(text_bytes(s)));
        Ok(m)
    }

    /// The address as six pairs of lower-case hexadecimal digits separated
    /// by colons.
    pub fn to_string(&self) -> (r: String)
        ensures
            r@ == mac_text(self@),
    {
        proof {
            reveal_strlit(":");
        }
        let mut out = String::new();
        push_hex2(&mut out, self.b0);
        out.append(":");
        push_hex2(&mut out, self.b1);
        out.append(":");
        push_hex2(&mut out, self.b2);
        out.append(":");
        push_hex2(&mut out, self.b3);
        out.append(":");
        push_hex2(&mut out, self.b4);
        out.append(":");
        push_hex2(&mut out, self.b5);
        assert(out@ =~= mac_text(self@));
        out
    }

    /// The address made of `s[i..i + 6]`.
    pub fn from_slice_at(s: &[u8], i: usize) -> (r: MacAddr)
        requires
            i + 6 <= s@.len(),
        ensures
            r@ == s@.subrange(i as int, i + 6),
    {
        let r = MacAddr { b0: s[i], b1: s[i + 1], b2: s[i + 2], b3: s[i + 3], b4: s[i + 4], b5: s[i + 5] };
        assert(r@ =~= s@.subrange(i as int, i + 6));
        r
    }
}

impl core::str::FromStr for MacAddr {
    type Err = MacAddrParseError;

    fn from_str(s: &str) -> (r: Result<MacAddr, MacAddrParseError>)
        ensures
            r is Ok <==> mac_text_ok(text_bytes(s)),
            r matches Ok(m) ==> m@ == mac_text_value(text_bytes(s)),
    {
        MacAddr::parse(s)
    }
}

impl From<[u8; 6]> for MacAddr {
    fn from(bytes: [u8; 6]) -> (r: MacAddr) {
        MacAddr::new(bytes)
    }
}

impl vstd::std_specs::convert::FromSpecImpl<[u8; 6]> for MacAddr {
    open spec fn obeys_from_spec() -> bool {
        true
    }

    open spec fn from_spec(v: [u8; 6]) -> MacAddr {
        MacAddr::spec_new(v)
    }
}

/// The source, destination and type fields of an Ethernet frame.
#[derive(Debug, Clone, Copy, PartialEq, Eq, Structural)]
pub struct EthernetHeader {
    destination: MacAddr,
    source: MacAddr,
    ether_type: u16,
}

impl EthernetHeader {
    pub closed spec fn spec_dest(self) -> MacAddr {
        self.destination
    }

    pub closed spec fn spec_src(self) -> MacAddr {
        self.source
    }

    pub closed spec fn spec_ether_type(self) -> u16 {
        self.ether_type
    }

    /// A header is determined by its three fields.
    pub proof fn lemma_fields(self, other: EthernetHeader)
        ensures
            self.spec_dest() == other.spec_dest() && self.spec_src() == other.spec_src()
                && self.spec_ether_type() == other.spec_ether_type() ==> self == other,
    {
    }

    pub fn new(destination: MacAddr, source: MacAddr, ether_type: u16) -> (r: EthernetHeader)
        ensures
            r.spec_dest() == destination,
            r.spec_src() == source,
            r.spec_ether_type() == ether_type,
    {
        EthernetHeader { destination, source, ether_type }
    }

    pub fn dest(&self) -> (r: MacAddr)
        ensures
            r == self.spec_dest(),
    {
        self.destination
    }

    pub fn src(&self) -> (r: MacAddr)
        ensures
            r == self.spec_src(),
    {
        self.source
    }

    pub fn ether_type(&self) -> (r: u16)
        ensures
            r == self.spec_ether_type(),
    {
        self.ether_type
    }

    /// The wire form: destination, source, then the type in network byte order.
    pub open spec fn spec_bytes(self) -> Seq<u8> {
        self.spec_dest()@ + self.spec_src()@ + be16_bytes(self.spec_ether_type())
    }

    fn bytes(self) -> (r: Vec<u8>)
        ensures
            r@ == self.spec_bytes(),
    {
        let mut r: Vec<u8> = Vec::with_capacity(HEADER_LEN);
        self.destination.push_to(&mut r);
        self.source.push_to(&mut r);
        push_be16(&mut r, self.ether_type);
        r
    }
}

/// An Ethernet frame whose payload borrows the received bytes.
#[derive(Debug, Clone, Copy, PartialEq, Eq)]
pub struct EthernetFrame<'a> {
    header: EthernetHeader,
    payload: &'a [u8],
}

/// Errors reading or building an Ethernet frame.
#[derive(Debug, Clone, Copy, PartialEq, Eq, Structural)]
pub enum EthernetError {
    TooShort { len: usize },
    PayloadTooLarge { len: usize },
}

/// `h` is the header that the first fourteen bytes of `data` encode.
pub open spec fn ethernet_header_of(data: Seq<u8>, h: EthernetHeader) -> bool {
    &&& h.spec_dest()@ == data.subrange(0, 6)
    &&& h.spec_src()@ == data.subrange(6, 12)
    &&& h.spec_ether_type() == be16_at(data, 12)
}

impl<'a> EthernetFrame<'a> {
    pub closed spec fn spec_header(self) -> EthernetHeader {
        self.header
    }

    pub closed spec fn spec_payload(self) -> Seq<u8> {
        self.payload@
    }

    pub fn header(&self) -> (r: EthernetHeader)
        ensures
            r == self.spec_header(),
    {
        self.header
    }

    pub fn payload(&self) -> (r: &'a [u8])
        ensures
            r@ == self.spec_payload(),
    {
        self.payload
    }

    /// Builds a frame from `source` to `destination` carrying `payload`.
    pub fn build(source: MacAddr, destination: MacAddr, ether_type: EtherType, payload: &[u8]) -> (r:
        Result<Vec<u8>, EthernetError>)
        ensures
            payload@.len() > PAYLOAD_LEN_MAX ==> r == Err::<Vec<u8>, EthernetError>(
                EthernetError::PayloadTooLarge { len: payload@.len() as usize },
            ),
            payload@.len() <= PAYLOAD_LEN_MAX ==> (r matches Ok(bytes) && bytes@ == destination@
                + source@ + be16_bytes(ether_type.spec_value()) + payload@),
    {
        if payload.len() > PAYLOAD_LEN_MAX {
            return Err(EthernetError::PayloadTooLarge { len: payload.len() });
        }
        let header = EthernetHeader::new(destination, source, ether_type.value());
        let mut frame = header.bytes();
        push_bytes(&mut frame, payload);
        Ok(frame)
    }

    /// Reads a frame: the header from the first fourteen bytes, the payload
    /// from the rest.
    pub fn parse(frame: &'a [u8]) -> (r: Result<EthernetFrame<'a>, EthernetError>)
        ensures
            frame@.len() < HEADER_LEN ==> r == Err::<EthernetFrame<'a>, EthernetError>(
                EthernetError::TooShort { len: frame@.len() as usize },
            ),
            frame@.len() >= HEADER_LEN ==> (r matches Ok(f) && ethernet_header_of(
                frame@,
                f.spec_header(),
            ) && f.spec_payload() == frame@.subrange(HEADER_LEN as int, frame@.len() as int)),
    {
        if frame.len() < HEADER_LEN {
            return Err(EthernetError::TooShort { len: frame.len() });
        }
        let header = EthernetHeader::new(
            MacAddr::from_slice_at(frame, 0),
            MacAddr::from_slice_at(frame, 6),
            read_be16(frame, 12),
        );
        let payload = vstd::slice::slice_subrange(frame, HEADER_LEN, frame.len());
        Ok(EthernetFrame { header, payload })
    }
}

impl<'a> TryFrom<&'a [u8]> for EthernetFrame<'a> {
    type Error = EthernetError;

    fn try_from(frame: &'a [u8]) -> (r: Result<EthernetFrame<'a>, EthernetError>)
        ensures
            frame@.len() < HEADER_LEN ==> r == Err::<EthernetFrame<'a>, EthernetError>(
                EthernetError::TooShort { len: frame@.len() as usize },
            ),
            frame@.len() >= HEADER_LEN ==> (r matches Ok(f) && ethernet_header_of(
                frame@,
                f.spec_header(),
            ) && f.spec_payload() == frame@.subrange(HEADER_LEN as int, frame@.len() as int)),
    {
        EthernetFrame::parse(frame)
    }
}

impl<'a> vstd::std_specs::convert::TryFromSpecImpl<&'a [u8]> for EthernetFrame<'a> {
    open spec fn obeys_try_from_spec() -> bool {
        false
    }

    open spec fn try_from_spec(v: &'a [u8]) -> Result<EthernetFrame<'a>, EthernetError> {
        arbitrary()
    }
}

/// Reading back a frame that `EthernetFrame::build` produced gives the
/// addresses, type and payload it was built from.
pub proof fn lemma_ethernet_frame_roundtrip(
    source: MacAddr,
    destination: MacAddr,
    ether_type: EtherType,
    payload: Seq<u8>,
    header: EthernetHeader,
)
    requires
        ethernet_header_of(
            destination@ + source@ + be16_bytes(ether_type.spec_value()) + payload,
            header,
        ),
    ensures
        header.spec_dest() == destination,
        header.spec_src() == source,
        header.spec_ether_type() == ether_type.spec_value(),
        (destination@ + source@ + be16_bytes(ether_type.spec_value()) + payload).subrange(
            HEADER_LEN as int,
            HEADER_LEN + payload.len(),
        ) == payload,
{
    let bytes = destination@ + source@ + be16_bytes(ether_type.spec_value()) + payload;
    destination.lemma_view(header.spec_dest());
    source.lemma_view(header.spec_src());
    assert(bytes.subrange(0, 6) =~= destination@);
    assert(bytes.subrange(6, 12) =~= source@);
    assert(bytes.subrange(HEADER_LEN as int, HEADER_LEN + payload.len()) =~= payload);
}

} // verus!
