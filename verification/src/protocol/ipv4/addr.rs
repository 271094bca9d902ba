use vstd::prelude::*;

use crate::protocol::text::{
    all_digits, ascii_bytes, ascii_only, decimal_text, decimal_value, is_digit,
    lemma_ascii_concat, lemma_ascii_encoding, lemma_decimal_nonneg, lemma_decimal_text, lemma_split_concat,
    lemma_split_single, parse_decimal, push_decimal, split_bytes, split_on, text_bytes,
};

verus! {

/// A decimal field of at least one digit whose value is at most `max`.
pub open spec fn decimal_field_ok(p: Seq<u8>, max: int) -> bool {
    p.len() > 0 && all_digits(p) && decimal_value(p) <= max
}

/// `s` is four decimal fields, each at most 255, separated by dots.
pub open spec fn ipv4_text_ok(s: Seq<u8>) -> bool {
    let parts = split_on(s, 46);
    parts.len() == 4 && forall|i: int| 0 <= i < 4 ==> decimal_field_ok(#[trigger] parts[i], 255)
}

/// The octets that the four fields of `s` write.
pub open spec fn ipv4_text_value(s: Seq<u8>) -> Seq<u8> {
    let parts = split_on(s, 46);
    Seq::new(4, |i: int| decimal_value(parts[i]) as u8)
}

/// Dotted-decimal text of the four octets `o`.
pub open spec fn ipv4_text(o: Seq<u8>) -> Seq<char> {
    decimal_text(o[0] as nat) + seq!['.'] + decimal_text(o[1] as nat) + seq!['.']
        + decimal_text(o[2] as nat) + seq!['.'] + decimal_text(o[3] as nat)
}

/// `s` is an address in dotted-decimal text, a colon and a decimal port of
/// at most 65535.
pub open spec fn endpoint_text_ok(s: Seq<u8>) -> bool {
    let parts = split_on(s, 58);
    parts.len() == 2 && ipv4_text_ok(parts[0]) && decimal_field_ok(parts[1], 65535)
}

/// The text of an address was not four dot-separated decimal numbers of at
/// most 255.
#[derive(Debug, Clone, Copy, PartialEq, Eq, Default, Structural)]
pub struct Ipv4AddrParseError;

impl Ipv4AddrParseError {
    /// The message that describes the error.
    pub fn message(&self) -> (r: &'static str)
        ensures
            r@ == "invalid IPv4 address"@,
    {
        "invalid IPv4 address"
    }
}

/// The text of an endpoint was not an IPv4 address, a colon and a port.
#[derive(Debug, Clone, Copy, PartialEq, Eq, Default, Structural)]
pub struct Ipv4EndpointParseError;

impl Ipv4EndpointParseError {
    /// The message that describes the error.
    pub fn message(&self) -> (r: &'static str)
        ensures
            r@ == "invalid IPv4 endpoint"@,
    {
        "invalid IPv4 endpoint"
    }
}

/// The address that the dotted-decimal bytes `s` write, where they are well
/// formed.
pub fn parse_ipv4_bytes(s: &[u8]) -> (r: Option<Ipv4Addr>)
    ensures
        r is Some <==> ipv4_text_ok(s@),
        r matches Some(a) ==> a@ == ipv4_text_value(s@),
{
    let parts = split_bytes(s, 46);
    if parts.len() != 4 {
        return None;
    }
    let ghost want = split_on(s@, 46);
    let mut octets: Vec<u8> = Vec::new();
    let mut i: usize = 0;
    while i < 4
        invariant
            parts@.len() == 4,
            want == split_on(s@, 46),
            want.len() == 4,
            forall|j: int| 0 <= j < 4 ==> #[trigger] parts@[j]@ == want[j],
            i <= 4,
            octets@.len() == i,
            forall|j: int| 0 <= j < i ==> decimal_field_ok(#[trigger] want[j], 255),
            forall|j: int| 0 <= j < i ==> octets@[j] == decimal_value(#[trigger] want[j]) as u8,
        decreases 4 - i,
    {
        match parse_decimal(parts[i].as_slice(), 255) {
            None => {
                assert(!decimal_field_ok(want[i as int], 255));
                return None;
            },
            Some(v) => {
                proof {
                    lemma_decimal_nonneg(want[i as int]);
                }
                assert(v <= 255 && v == decimal_value(want[i as int]));
                octets.push(v as u8);
            },
        }
        i = i + 1;
    }
    let a = Ipv4Addr::from_slice_at(octets.as_slice(), 0);
    assert(a@ =~= ipv4_text_value(s@));
    Some(a)
}

/// Reading back dotted-decimal text gives the address: the text is ASCII,
/// its bytes are four well-formed fields holding the octets, and it holds
/// only digits and dots.
pub proof fn lemma_ipv4_text_roundtrip(a: Ipv4Addr)
    ensures
        ascii_only(ipv4_text(a@)),
        ipv4_text_ok(vstd::utf8::encode_utf8(ipv4_text(a@))),
        ipv4_text_value(vstd::utf8::encode_utf8(ipv4_text(a@))) == a@,
        forall|i: int|
            0 <= i < ascii_bytes(ipv4_text(a@)).len() ==> #[trigger] ascii_bytes(ipv4_text(a@))[i]
                == 46 || is_digit(ascii_bytes(ipv4_text(a@))[i]),
{
    a.lemma_view(a);
    let dot = seq!['.'];
    let c = seq![46u8];
    assert(ascii_bytes(dot) =~= c);
    assert(ascii_only(dot));
    let h = |k: int| decimal_text(a@[k] as nat);
    let b = |k: int| ascii_bytes(decimal_text(a@[k] as nat));
    lemma_decimal_text(a@[0] as nat);
    lemma_decimal_text(a@[1] as nat);
    lemma_decimal_text(a@[2] as nat);
    lemma_decimal_text(a@[3] as nat);
    let t1 = h(0) + dot;
    lemma_ascii_concat(h(0), dot);
    let t2 = t1 + h(1);
    lemma_ascii_concat(t1, h(1));
    let t3 = t2 + dot;
    lemma_ascii_concat(t2, dot);
    let t4 = t3 + h(2);
    lemma_ascii_concat(t3, h(2));
    let t5 = t4 + dot;
    lemma_ascii_concat(t4, dot);
    let t6 = t5 + h(3);
    lemma_ascii_concat(t5, h(3));
    assert(t6 == ipv4_text(a@));
    lemma_ascii_encoding(t6);
    let x1 = b(0);
    let x2 = x1 + c + b(1);
    let x3 = x2 + c + b(2);
    let x4 = x3 + c + b(3);
    assert(ascii_bytes(t6) =~= x4);
    assert forall|k: int| 0 <= k < 4 implies split_on(#[trigger] b(k), 46) == seq![b(k)] by {
        lemma_decimal_text(a@[k] as nat);
        assert forall|i: int| 0 <= i < b(k).len() implies #[trigger] b(k)[i] != 46 by {
            assert(is_digit(b(k)[i]));
        }
        lemma_split_single(b(k), 46);
    }
    lemma_split_concat(x1, b(1), 46);
    lemma_split_concat(x2, b(2), 46);
    lemma_split_concat(x3, b(3), 46);
    let parts = split_on(x4, 46);
    assert(split_on(x1, 46) == seq![b(0)]);
    assert(split_on(b(1), 46) == seq![b(1)]);
    assert(split_on(b(2), 46) == seq![b(2)]);
    assert(split_on(b(3), 46) == seq![b(3)]);
    assert(parts =~= seq![b(0), b(1), b(2), b(3)]);
    assert forall|k: int| 0 <= k < 4 implies decimal_field_ok(#[trigger] parts[k], 255)
        && decimal_value(parts[k]) == a@[k] by {
        lemma_decimal_text(a@[k] as nat);
        assert(parts[k] == b(k));
    }
    assert(ipv4_text_value(x4) =~= a@);
    assert forall|i: int| 0 <= i < x4.len() implies #[trigger] x4[i] == 46 || is_digit(x4[i]) by {
        let l0 = b(0).len();
        let l1 = b(1).len();
        let l2 = b(2).len();
        if i < l0 {
            assert(x4[i] == b(0)[i]);
        } else if i == l0 {
        } else if i < l0 + 1 + l1 {
            assert(x4[i] == b(1)[i - l0 - 1]);
        } else if i == l0 + 1 + l1 {
        } else if i < l0 + 1 + l1 + 1 + l2 {
            assert(x4[i] == b(2)[i - l0 - 1 - l1 - 1]);
        } else if i == l0 + 1 + l1 + 1 + l2 {
        } else {
            assert(x4[i] == b(3)[i - l0 - 1 - l1 - 1 - l2 - 1]);
        }
    }
}

/// An IPv4 address, kept as its four octets in network byte order.
#[derive(Debug, Clone, Copy, PartialEq, Eq, Hash, Structural)]
pub struct Ipv4Addr {
    o0: u8,
    o1: u8,
    o2: u8,
    o3: u8,
}

impl View for Ipv4Addr {
    type V = Seq<u8>;

    closed spec fn view(&self) -> Seq<u8> {
        seq![self.o0, self.o1, self.o2, self.o3]
    }
}

/// The address as one 32-bit number, first octet most significant.
pub open spec fn addr_u32(a: Ipv4Addr) -> u32 {
    (a@[0] as int * 0x100_0000 + a@[1] as int * 0x1_0000 + a@[2] as int * 0x100 + a@[3] as int) as u32
}

/// The address is `0.0.0.0`.
pub open spec fn is_any(a: Ipv4Addr) -> bool {
    a@ == seq![0u8, 0, 0, 0]
}

impl Ipv4Addr {
    /// The address with the given octets.
    pub closed spec fn spec_new(octets: [u8; 4]) -> Ipv4Addr {
        Ipv4Addr { o0: octets[0], o1: octets[1], o2: octets[2], o3: octets[3] }
    }

    pub fn new(octets: [u8; 4]) -> (r: Ipv4Addr)
        ensures
            r@ == octets@,
            r == Ipv4Addr::spec_new(octets),
    {
        let r = Ipv4Addr { o0: octets[0], o1: octets[1], o2: octets[2], o3: octets[3] };
        assert(r@ =~= octets@);
        r
    }

    /// The address with the four given octets.
    pub fn from_octets(o0: u8, o1: u8, o2: u8, o3: u8) -> (r: Ipv4Addr)
        ensures
            r@ == seq![o0, o1, o2, o3],
    {
        Ipv4Addr { o0, o1, o2, o3 }
    }

    /// `0.0.0.0`, the unspecified address.
    pub fn any() -> (r: Ipv4Addr)
        ensures
            r@ == seq![0u8, 0, 0, 0],
    {
        Ipv4Addr { o0: 0, o1: 0, o2: 0, o3: 0 }
    }

    /// `255.255.255.255`, the limited broadcast address.
    pub fn broadcast() -> (r: Ipv4Addr)
        ensures
            r@ == seq![255u8, 255, 255, 255],
    {
        Ipv4Addr { o0: 255, o1: 255, o2: 255, o3: 255 }
    }

    /// The address made of the first four bytes of `s`.
    pub closed spec fn spec_from_seq(s: Seq<u8>) -> Ipv4Addr {
        Ipv4Addr { o0: s[0], o1: s[1], o2: s[2], o3: s[3] }
    }

    pub broadcast proof fn lemma_spec_from_seq(s: Seq<u8>)
        ensures
            s.len() == 4 ==> #[trigger] Ipv4Addr::spec_from_seq(s)@ == s,
    {
        if s.len() == 4 {
            assert(Ipv4Addr::spec_from_seq(s)@ =~= s);
        }
    }

    pub broadcast proof fn lemma_len(a: Ipv4Addr)
        ensures
            #[trigger] a@.len() == 4,
    {
    }

    pub broadcast proof fn lemma_spec_from_view(a: Ipv4Addr)
        ensures
            #[trigger] Ipv4Addr::spec_from_seq(a@) == a,
    {
    }

    /// Reads an address in dotted-decimal text, such as `192.0.2.1`.
    pub fn parse(s: &str) -> (r: Result<Ipv4Addr, Ipv4AddrParseError>)
        ensures
            r is Ok <==> ipv4_text_ok(text_bytes(s)),
            r matches Ok(a) ==> a@ == ipv4_text_value(text_bytes(s)),
    {
        match parse_ipv4_bytes(s.as_bytes()) {
            Some(a) => Ok(a),
            None => Err(Ipv4AddrParseError),
        }
    }

    /// The address in dotted-decimal text.
    pub fn to_string(&self) -> (r: String)
        ensures
            r@ == ipv4_text(self@),
    {
        proof {
            reveal_strlit(".");
        }
        let mut out = String::new();
        push_decimal(&mut out, self.o0 as u16);
        out.append(".");
        push_decimal(&mut out, self.o1 as u16);
        out.append(".");
        push_decimal(&mut out, self.o2 as u16);
        out.append(".");
        push_decimal(&mut out, self.o3 as u16);
        assert(out@ =~= ipv4_text(self@));
        out
    }

    /// Whether this is `0.0.0.0`.
    pub fn is_unspecified(&self) -> (r: bool)
        ensures
            r == is_any(*self),
    {
        let r = self.o0 == 0 && self.o1 == 0 && self.o2 == 0 && self.o3 == 0;
        assert(r ==> self@ =~= seq![0u8, 0, 0, 0]);
        r
    }

    /// The four octets.
    pub fn octets(self) -> (r: [u8; 4])
        ensures
            r@ == self@,
    {
        let r = [self.o0, self.o1, self.o2, self.o3];
        assert(r@ =~= self@);
        r
    }

    /// The four octets.
    pub fn as_bytes(&self) -> (r: [u8; 4])
        ensures
            r@ == self@,
    {
        self.octets()
    }

    /// Appends the four octets to `buf`.
    pub fn push_to(&self, buf: &mut Vec<u8>)
        ensures
            final(buf)@ == old(buf)@ + self@,
    {
        buf.push(self.o0);
        buf.push(self.o1);
        buf.push(self.o2);
        buf.push(self.o3);
        assert(final(buf)@ =~= old(buf)@ + self@);
    }

    /// The address made of `s[i..i + 4]`.
    pub fn from_slice_at(s: &[u8], i: usize) -> (r: Ipv4Addr)
        requires
            i + 4 <= s@.len(),
        ensures
            r@ == s@.subrange(i as int, i + 4),
    {
        let r = Ipv4Addr { o0: s[i], o1: s[i + 1], o2: s[i + 2], o3: s[i + 3] };
        assert(r@ =~= s@.subrange(i as int, i + 4));
        r
    }

    /// The address as one 32-bit number, first octet most significant.
    pub fn to_u32(self) -> (r: u32)
        ensures
            r == addr_u32(self),
    {
        (self.o0 as u32) * 0x100_0000 + (self.o1 as u32) * 0x1_0000 + (self.o2 as u32) * 0x100
            + self.o3 as u32
    }

    /// The address whose octets are those of `value`, most significant first.
    pub fn from_u32(value: u32) -> (r: Ipv4Addr)
        ensures
            addr_u32(r) == value,
    {
        Ipv4Addr {
            o0: (value / 0x100_0000) as u8,
            o1: ((value / 0x1_0000) % 256) as u8,
            o2: ((value / 0x100) % 256) as u8,
            o3: (value % 256) as u8,
        }
    }

    /// Every address has four octets, and an address is determined by them.
    pub proof fn lemma_view(self, other: Ipv4Addr)
        ensures
            self@.len() == 4,
            self@ == other@ ==> self == other,
            addr_u32(self) == addr_u32(other) ==> self == other,
    {
        if self@ == other@ {
            assert(self@[0] == other@[0] && self@[1] == other@[1] && self@[2] == other@[2]
                && self@[3] == other@[3]);
        }
    }
}

impl Default for Ipv4Addr {
    fn default() -> (r: Ipv4Addr)
        ensures
            r@ == seq![0u8, 0, 0, 0],
    {
        Ipv4Addr::any()
    }
}

impl core::str::FromStr for Ipv4Addr {
    type Err = Ipv4AddrParseError;

    fn from_str(s: &str) -> (r: Result<Ipv4Addr, Ipv4AddrParseError>)
        ensures
            r is Ok <==> ipv4_text_ok(text_bytes(s)),
            r matches Ok(a) ==> a@ == ipv4_text_value(text_bytes(s)),
    {
        Ipv4Addr::parse(s)
    }
}

impl From<[u8; 4]> for Ipv4Addr {
    fn from(octets: [u8; 4]) -> (r: Ipv4Addr) {
        Ipv4Addr::new(octets)
    }
}

impl vstd::std_specs::convert::FromSpecImpl<[u8; 4]> for Ipv4Addr {
    open spec fn obeys_from_spec() -> bool {
        true
    }

    open spec fn from_spec(v: [u8; 4]) -> Ipv4Addr {
        Ipv4Addr::spec_new(v)
    }
}

/// An IPv4 address together with a port number.
#[derive(Debug, Clone, Copy, PartialEq, Eq, Hash, Structural)]
pub struct Ipv4Endpoint {
    address: Ipv4Addr,
    port: u16,
}

impl Ipv4Endpoint {
    pub closed spec fn spec_address(self) -> Ipv4Addr {
        self.address
    }

    pub closed spec fn spec_port(self) -> u16 {
        self.port
    }

    pub broadcast proof fn lemma_spec_new(address: Ipv4Addr, port: u16)
        ensures
            #[trigger] Ipv4Endpoint::spec_new(address, port).spec_address() == address,
            Ipv4Endpoint::spec_new(address, port).spec_port() == port,
    {
    }

    /// An endpoint is determined by its address and port.
    pub proof fn lemma_fields(self, other: Ipv4Endpoint)
        ensures
            self.spec_address() == other.spec_address() && self.spec_port() == other.spec_port()
                ==> self == other,
    {
    }

    /// The endpoint with the given address and port.
    pub closed spec fn spec_new(address: Ipv4Addr, port: u16) -> Ipv4Endpoint {
        Ipv4Endpoint { address, port }
    }

    pub fn new(address: Ipv4Addr, port: u16) -> (r: Ipv4Endpoint)
        ensures
            r.spec_address() == address,
            r.spec_port() == port,
            r == Ipv4Endpoint::spec_new(address, port),
    {
        Ipv4Endpoint { address, port }
    }

    /// Reads an endpoint written as a dotted-decimal address, a colon and a
    /// decimal port, such as `192.0.2.1:5353`.
    pub fn parse(s: &str) -> (r: Result<Ipv4Endpoint, Ipv4EndpointParseError>)
        ensures
            r is Ok <==> endpoint_text_ok(text_bytes(s)),
            r matches Ok(e) ==> e.spec_address()@ == ipv4_text_value(split_on(text_bytes(s), 58)[0])
                && e.spec_port() == decimal_value(split_on(text_bytes(s), 58)[1]),
    {
        let parts = split_bytes(s.as_bytes(), 58);
        if parts.len() != 2 {
            return Err(Ipv4EndpointParseError);
        }
        assert(parts@[0]@ == split_on(text_bytes(s), 58)[0]);
        assert(parts@[1]@ == split_on(text_bytes(s), 58)[1]);
        let address = match parse_ipv4_bytes(parts[0].as_slice()) {
            Some(a) => a,
            None => {
                return Err(Ipv4EndpointParseError);
            },
        };
        let port = match parse_decimal(parts[1].as_slice(), 65535) {
            Some(p) => {
                proof {
                    lemma_decimal_nonneg(split_on(text_bytes(s), 58)[1]);
                }
                p as u16
            },
            None => {
                return Err(Ipv4EndpointParseError);
            },
        };
        Ok(Ipv4Endpoint::new(address, port))
    }

    /// The endpoint as dotted-decimal address, a colon and the port.
    pub fn to_string(&self) -> (r: String)
        ensures
            r@ == ipv4_text(self.spec_address()@) + seq![':'] + decimal_text(self.spec_port() as nat),
    {
        proof {
            reveal_strlit(":");
        }
        let mut out = self.address.to_string();
        out.append(":");
        push_decimal(&mut out, self.port);
        out
    }

    pub fn address(&self) -> (r: Ipv4Addr)
        ensures
            r == self.spec_address(),
    {
        self.address
    }

    pub fn port(&self) -> (r: u16)
        ensures
            r == self.spec_port(),
    {
        self.port
    }
}

impl core::str::FromStr for Ipv4Endpoint {
    type Err = Ipv4EndpointParseError;

    fn from_str(s: &str) -> (r: Result<Ipv4Endpoint, Ipv4EndpointParseError>)
        ensures
            r is Ok <==> endpoint_text_ok(text_bytes(s)),
            r matches Ok(e) ==> e.spec_address()@ == ipv4_text_value(split_on(text_bytes(s), 58)[0])
                && e.spec_port() == decimal_value(split_on(text_bytes(s), 58)[1]),
    {
        Ipv4Endpoint::parse(s)
    }
}

/// Reading back the text of an endpoint gives the endpoint.
pub proof fn lemma_endpoint_text_roundtrip(e: Ipv4Endpoint)
    ensures
        ascii_only(ipv4_text(e.spec_address()@) + seq![':'] + decimal_text(e.spec_port() as nat)),
        endpoint_text_ok(
            vstd::utf8::encode_utf8(
                ipv4_text(e.spec_address()@) + seq![':'] + decimal_text(e.spec_port() as nat),
            ),
        ),
        ipv4_text_value(
            split_on(
                vstd::utf8::encode_utf8(
                    ipv4_text(e.spec_address()@) + seq![':'] + decimal_text(e.spec_port() as nat),
                ),
                58,
            )[0],
        ) == e.spec_address()@,
        decimal_value(
            split_on(
                vstd::utf8::encode_utf8(
                    ipv4_text(e.spec_address()@) + seq![':'] + decimal_text(e.spec_port() as nat),
                ),
                58,
            )[1],
        ) == e.spec_port(),
{
    let a = e.spec_address();
    let ta = ipv4_text(a@);
    let colon = seq![':'];
    let tp = decimal_text(e.spec_port() as nat);
    lemma_ipv4_text_roundtrip(a);
    lemma_decimal_text(e.spec_port() as nat);
    assert(ascii_bytes(colon) =~= seq![58u8]);
    assert(ascii_only(colon));
    lemma_ascii_concat(ta, colon);
    lemma_ascii_concat(ta + colon, tp);
    let t = ta + colon + tp;
    lemma_ascii_encoding(t);
    lemma_ascii_encoding(ta);
    let ba = ascii_bytes(ta);
    let bp = ascii_bytes(tp);
    assert(ascii_bytes(t) =~= ba + seq![58u8] + bp);
    assert forall|i: int| 0 <= i < ba.len() implies #[trigger] ba[i] != 58 by {
        assert(ba[i] == 46 || is_digit(ba[i]));
    }
    assert forall|i: int| 0 <= i < bp.len() implies #[trigger] bp[i] != 58 by {
        assert(is_digit(bp[i]));
    }
    lemma_split_single(ba, 58);
    lemma_split_single(bp, 58);
    lemma_split_concat(ba, bp, 58);
    assert(split_on(ascii_bytes(t), 58) =~= seq![ba, bp]);
}

} // verus!
