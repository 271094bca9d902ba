use vstd::prelude::*;

use crate::os::{Random, Time};
use crate::protocol::checksum::{checksum16, internet_checksum, lemma_checksum_fills_field};
use crate::protocol::ipv4::interface::Ipv4Interface;
use crate::device::registry::SentFrame;
use crate::protocol::ipv4::interface::Ipv4InterfaceView;
use crate::protocol::ipv4::{ipv4_output_outcome, ipv4_packet_sent, Ipv4, Ipv4OutputError, Ipv4Protocol};
use crate::stack::Stack;
use crate::protocol::ipv4::addr::Ipv4Addr;
use crate::protocol::ipv4::packet::Ipv4Packet;
use crate::protocol::wire::{
    be16_at, be16_bytes, be32_at, be32_bytes, hi, hi_byte, lo, lo_byte, push_be32, push_bytes,
    read_be16, read_be32, seq_from, seq_len,
};

verus! {

/// Length of the ICMP header in bytes.
pub const ICMP_HEADER_LEN: usize = 8;

/// ICMP message types.
#[derive(Debug, Clone, Copy, PartialEq, Eq, Hash, Structural)]
pub enum IcmpType {
    EchoReply,
    DestinationUnreachable,
    SourceQuench,
    Redirect,
    Echo,
    TimeExceeded,
    ParameterProblem,
    Timestamp,
    TimestampReply,
    InformationRequest,
    InformationReply,
}

/// A type number that names no ICMP message type.
#[derive(Debug, Clone, Copy, PartialEq, Eq, Structural)]
pub struct UnknownIcmpType(pub u8);

impl IcmpType {
    /// The type number.
    pub open spec fn spec_value(self) -> u8 {
        match self {
            IcmpType::EchoReply => 0,
            IcmpType::DestinationUnreachable => 3,
            IcmpType::SourceQuench => 4,
            IcmpType::Redirect => 5,
            IcmpType::Echo => 8,
            IcmpType::TimeExceeded => 11,
            IcmpType::ParameterProblem => 12,
            IcmpType::Timestamp => 13,
            IcmpType::TimestampReply => 14,
            IcmpType::InformationRequest => 15,
            IcmpType::InformationReply => 16,
        }
    }

    /// The type number.
    pub fn value(self) -> (r: u8)
        ensures
            r == self.spec_value(),
    {
        match self {
            IcmpType::EchoReply => 0,
            IcmpType::DestinationUnreachable => 3,
            IcmpType::SourceQuench => 4,
            IcmpType::Redirect => 5,
            IcmpType::Echo => 8,
            IcmpType::TimeExceeded => 11,
            IcmpType::ParameterProblem => 12,
            IcmpType::Timestamp => 13,
            IcmpType::TimestampReply => 14,
            IcmpType::InformationRequest => 15,
            IcmpType::InformationReply => 16,
        }
    }

    /// The name of the type.
    pub fn name(self) -> (r: &'static str)
        ensures
            r@ == (match self {
                IcmpType::EchoReply => "EchoReply"@,
                IcmpType::DestinationUnreachable => "DestinationUnreachable"@,
                IcmpType::SourceQuench => "SourceQuench"@,
                IcmpType::Redirect => "Redirect"@,
                IcmpType::Echo => "Echo"@,
                IcmpType::TimeExceeded => "TimeExceeded"@,
                IcmpType::ParameterProblem => "ParameterProblem"@,
                IcmpType::Timestamp => "Timestamp"@,
                IcmpType::TimestampReply => "TimestampReply"@,
                IcmpType::InformationRequest => "InformationRequest"@,
                IcmpType::InformationReply => "InformationReply"@,
            }),
    {
        match self {
            IcmpType::EchoReply => "EchoReply",
            IcmpType::DestinationUnreachable => "DestinationUnreachable",
            IcmpType::SourceQuench => "SourceQuench",
            IcmpType::Redirect => "Redirect",
            IcmpType::Echo => "Echo",
            IcmpType::TimeExceeded => "TimeExceeded",
            IcmpType::ParameterProblem => "ParameterProblem",
            IcmpType::Timestamp => "Timestamp",
            IcmpType::TimestampReply => "TimestampReply",
            IcmpType::InformationRequest => "InformationRequest",
            IcmpType::InformationReply => "InformationReply",
        }
    }
}

/// The message type that a type number names, if any.
pub open spec fn icmp_type_of(v: u8) -> Result<IcmpType, UnknownIcmpType> {
    if v == 0 {
        Ok(IcmpType::EchoReply)
    } else if v == 3 {
        Ok(IcmpType::DestinationUnreachable)
    } else if v == 4 {
        Ok(IcmpType::SourceQuench)
    } else if v == 5 {
        Ok(IcmpType::Redirect)
    } else if v == 8 {
        Ok(IcmpType::Echo)
    } else if v == 11 {
        Ok(IcmpType::TimeExceeded)
    } else if v == 12 {
        Ok(IcmpType::ParameterProblem)
    } else if v == 13 {
        Ok(IcmpType::Timestamp)
    } else if v == 14 {
        Ok(IcmpType::TimestampReply)
    } else if v == 15 {
        Ok(IcmpType::InformationRequest)
    } else if v == 16 {
        Ok(IcmpType::InformationReply)
    } else {
        Err(UnknownIcmpType(v))
    }
}

impl TryFrom<u8> for IcmpType {
    type Error = UnknownIcmpType;

    fn try_from(value: u8) -> (r: Result<IcmpType, UnknownIcmpType>) {
        match value {
            0 => Ok(IcmpType::EchoReply),
            3 => Ok(IcmpType::DestinationUnreachable),
            4 => Ok(IcmpType::SourceQuench),
            5 => Ok(IcmpType::Redirect),
            8 => Ok(IcmpType::Echo),
            11 => Ok(IcmpType::TimeExceeded),
            12 => Ok(IcmpType::ParameterProblem),
            13 => Ok(IcmpType::Timestamp),
            14 => Ok(IcmpType::TimestampReply),
            15 => Ok(IcmpType::InformationRequest),
            16 => Ok(IcmpType::InformationReply),
            value => Err(UnknownIcmpType(value)),
        }
    }
}

impl vstd::std_specs::convert::TryFromSpecImpl<u8> for IcmpType {
    open spec fn obeys_try_from_spec() -> bool {
        true
    }

    open spec fn try_from_spec(v: u8) -> Result<IcmpType, UnknownIcmpType> {
        icmp_type_of(v)
    }
}

/// Reading a type number back gives the type it names.
pub proof fn lemma_icmp_type_roundtrip(t: IcmpType)
    ensures
        icmp_type_of(t.spec_value()) == Ok::<IcmpType, UnknownIcmpType>(t),
{
}

/// Codes defined for ICMP Destination Unreachable messages.
#[derive(Debug, Clone, Copy, PartialEq, Eq, Hash, Structural)]
pub enum IcmpDestinationUnreachableCode {
    NetworkUnreachable,
    HostUnreachable,
    ProtocolUnreachable,
    PortUnreachable,
    FragmentationNeeded,
    SourceRouteFailed,
}

impl IcmpDestinationUnreachableCode {
    /// The code number.
    pub open spec fn spec_value(self) -> u8 {
        match self {
            IcmpDestinationUnreachableCode::NetworkUnreachable => 0,
            IcmpDestinationUnreachableCode::HostUnreachable => 1,
            IcmpDestinationUnreachableCode::ProtocolUnreachable => 2,
            IcmpDestinationUnreachableCode::PortUnreachable => 3,
            IcmpDestinationUnreachableCode::FragmentationNeeded => 4,
            IcmpDestinationUnreachableCode::SourceRouteFailed => 5,
        }
    }

    /// The code number.
    pub fn value(self) -> (r: u8)
        ensures
            r == self.spec_value(),
    {
        match self {
            IcmpDestinationUnreachableCode::NetworkUnreachable => 0,
            IcmpDestinationUnreachableCode::HostUnreachable => 1,
            IcmpDestinationUnreachableCode::ProtocolUnreachable => 2,
            IcmpDestinationUnreachableCode::PortUnreachable => 3,
            IcmpDestinationUnreachableCode::FragmentationNeeded => 4,
            IcmpDestinationUnreachableCode::SourceRouteFailed => 5,
        }
    }
}

/// The fixed eight bytes at the start of every ICMP message.
#[derive(Debug, Clone, Copy, PartialEq, Eq, Structural)]
pub struct IcmpHeader {
    type_value: u8,
    code: u8,
    checksum: u16,
    dependent: u32,
}

/// What an [`IcmpHeader`] holds.
pub struct IcmpHeaderView {
    pub type_value: u8,
    pub code: u8,
    pub checksum: u16,
    pub dependent: u32,
}

impl View for IcmpHeader {
    type V = IcmpHeaderView;

    closed spec fn view(&self) -> IcmpHeaderView {
        IcmpHeaderView {
            type_value: self.type_value,
            code: self.code,
            checksum: self.checksum,
            dependent: self.dependent,
        }
    }
}

/// Errors reading an ICMP message.
#[derive(Debug, Clone, Copy, PartialEq, Eq, Structural)]
pub enum IcmpError {
    TooShort { len: usize },
    InvalidChecksum,
}

/// The header of the ICMP message `data`, or why it is not one: too short,
/// or a checksum over the whole message that does not check.
pub open spec fn icmp_header_parse(data: Seq<u8>) -> Result<IcmpHeaderView, IcmpError> {
    if data.len() < ICMP_HEADER_LEN {
        Err(IcmpError::TooShort { len: seq_len(data) })
    } else if internet_checksum(data) != 0 {
        Err(IcmpError::InvalidChecksum)
    } else {
        Ok(
            IcmpHeaderView {
                type_value: data[0],
                code: data[1],
                checksum: be16_at(data, 2),
                dependent: be32_at(data, 4),
            },
        )
    }
}

impl IcmpHeader {
    /// A header is determined by what it holds.
    pub proof fn lemma_view(self, other: IcmpHeader)
        ensures
            self@ == other@ ==> self == other,
    {
    }

    pub fn type_value(&self) -> (r: u8)
        ensures
            r == self@.type_value,
    {
        self.type_value
    }

    pub fn code(&self) -> (r: u8)
        ensures
            r == self@.code,
    {
        self.code
    }

    pub fn checksum(&self) -> (r: u16)
        ensures
            r == self@.checksum,
    {
        self.checksum
    }

    pub fn dependent(&self) -> (r: u32)
        ensures
            r == self@.dependent,
    {
        self.dependent
    }

    /// Reads the header of the ICMP message `data`, checking the checksum
    /// over the whole message.
    pub fn parse(data: &[u8]) -> (r: Result<IcmpHeader, IcmpError>)
        ensures
            match r {
                Ok(h) => icmp_header_parse(data@) == Ok::<IcmpHeaderView, IcmpError>(h@),
                Err(e) => icmp_header_parse(data@) == Err::<IcmpHeaderView, IcmpError>(e),
            },
    {
        if data.len() < ICMP_HEADER_LEN {
            return Err(IcmpError::TooShort { len: data.len() });
        }
        if checksum16(data) != 0 {
            return Err(IcmpError::InvalidChecksum);
        }
        Ok(
            IcmpHeader {
                type_value: data[0],
                code: data[1],
                checksum: read_be16(data, 2),
                dependent: read_be32(data, 4),
            },
        )
    }
}

impl<'a> TryFrom<&'a [u8]> for IcmpHeader {
    type Error = IcmpError;

    fn try_from(data: &'a [u8]) -> (r: Result<IcmpHeader, IcmpError>)
        ensures
            match r {
                Ok(h) => icmp_header_parse(data@) == Ok::<IcmpHeaderView, IcmpError>(h@),
                Err(e) => icmp_header_parse(data@) == Err::<IcmpHeaderView, IcmpError>(e),
            },
    {
        IcmpHeader::parse(data)
    }
}

impl<'a> vstd::std_specs::convert::TryFromSpecImpl<&'a [u8]> for IcmpHeader {
    open spec fn obeys_try_from_spec() -> bool {
        false
    }

    open spec fn try_from_spec(v: &'a [u8]) -> Result<IcmpHeader, IcmpError> {
        arbitrary()
    }
}

/// An ICMP message with the addresses of the IPv4 packet that carried it.
#[derive(Debug, Clone, Copy, PartialEq, Eq)]
pub struct IcmpPacket<'a> {
    src: Ipv4Addr,
    dest: Ipv4Addr,
    header: IcmpHeader,
    payload: &'a [u8],
    data: &'a [u8],
}

/// What an [`IcmpPacket`] holds.
pub struct IcmpPacketView {
    pub src: Ipv4Addr,
    pub dest: Ipv4Addr,
    pub header: IcmpHeaderView,
    pub payload: Seq<u8>,
    pub data: Seq<u8>,
}

impl<'a> View for IcmpPacket<'a> {
    type V = IcmpPacketView;

    closed spec fn view(&self) -> IcmpPacketView {
        IcmpPacketView {
            src: self.src,
            dest: self.dest,
            header: self.header@,
            payload: self.payload@,
            data: self.data@,
        }
    }
}

impl<'a> IcmpPacket<'a> {
    pub fn src(&self) -> (r: Ipv4Addr)
        ensures
            r == self@.src,
    {
        self.src
    }

    pub fn dest(&self) -> (r: Ipv4Addr)
        ensures
            r == self@.dest,
    {
        self.dest
    }

    pub fn header(&self) -> (r: IcmpHeader)
        ensures
            r@ == self@.header,
    {
        self.header
    }

    pub fn payload(&self) -> (r: &'a [u8])
        ensures
            r@ == self@.payload,
    {
        self.payload
    }

    pub fn data(&self) -> (r: &'a [u8])
        ensures
            r@ == self@.data,
    {
        self.data
    }

    /// Reads the ICMP message that `packet` carries.
    pub fn from_ipv4(packet: Ipv4Packet<'a>) -> (r: Result<IcmpPacket<'a>, IcmpError>)
        ensures
            match r {
                Ok(p) => icmp_header_parse(packet@.payload) == Ok::<IcmpHeaderView, IcmpError>(
                    p@.header,
                ) && p@.src == packet@.header.src && p@.dest == packet@.header.dest && p@.data
                    == packet@.payload && p@.payload == seq_from(packet@.payload, ICMP_HEADER_LEN),
                Err(e) => icmp_header_parse(packet@.payload) == Err::<IcmpHeaderView, IcmpError>(e),
            },
    {
        let data = packet.payload();
        let header = match IcmpHeader::parse(data) {
            Ok(h) => h,
            Err(e) => {
                return Err(e);
            },
        };
        Ok(
            IcmpPacket {
                src: packet.header().src(),
                dest: packet.header().dest(),
                header,
                payload: vstd::slice::slice_subrange(data, ICMP_HEADER_LEN, data.len()),
                data,
            },
        )
    }
}

/// The bytes of an ICMP message with `checksum` in its checksum field.
pub open spec fn icmp_message_raw(
    type_value: u8,
    code: u8,
    checksum: u16,
    dependent: u32,
    payload: Seq<u8>,
) -> Seq<u8> {
    seq![type_value, code] + be16_bytes(checksum) + be32_bytes(dependent) + payload
}

/// What answering an echo request from `requester` with `code`, the
/// identifier and sequence word `dependent` and data `payload` owes, when
/// `interface` answers: an echo reply with the same code, word and data
/// goes out from the interface's address to the requester as
/// [`ipv4_output_outcome`] says, and on success exactly that message is
/// handed to the device as [`ipv4_packet_sent`] says.
pub open spec fn icmp_echo_reply_outcome<E>(
    before: Stack,
    sent: Seq<SentFrame>,
    interface: Ipv4InterfaceView,
    code: u8,
    dependent: u32,
    payload: Seq<u8>,
    requester: Ipv4Addr,
    r: Result<usize, Ipv4OutputError<E>>,
) -> bool {
    let m = icmp_message(IcmpType::EchoReply.spec_value(), code, dependent, payload);
    &&& ipv4_output_outcome(
        before.ipv4_routes@,
        before.interfaces@,
        interface,
        m.len(),
        interface.unicast,
        requester,
        r,
    )
    &&& r is Ok ==> ipv4_packet_sent(
        before,
        sent,
        Ipv4Protocol::Icmp.spec_value(),
        m,
        interface.unicast,
        requester,
    )
}

/// The ICMP message [`Icmp::message`] builds: the checksum computed over the
/// message with a zero checksum field.
pub open spec fn icmp_message(type_value: u8, code: u8, dependent: u32, payload: Seq<u8>) -> Seq<u8> {
    icmp_message_raw(
        type_value,
        code,
        internet_checksum(icmp_message_raw(type_value, code, 0, dependent, payload)),
        dependent,
        payload,
    )
}

/// ICMP protocol operations.
pub struct Icmp;

impl Icmp {
    /// The unused field value for ICMP messages that do not define it.
    pub const UNUSED: u32 = 0;

    /// The ICMP message with the given type, code, type-dependent word and
    /// payload, its checksum filled in.
    pub fn message(type_value: u8, code: u8, dependent: u32, payload: &[u8]) -> (r: Vec<u8>)
        ensures
            r@ == icmp_message(type_value, code, dependent, payload@),
    {
        let mut data: Vec<u8> = Vec::new();
        data.push(type_value);
        data.push(code);
        data.push(0);
        data.push(0);
        push_be32(&mut data, dependent);
        push_bytes(&mut data, payload);
        assert(data@ =~= icmp_message_raw(type_value, code, 0, dependent, payload@));
        let checksum = checksum16(data.as_slice());
        data.set(2, hi_byte(checksum));
        data.set(3, lo_byte(checksum));
        assert(data@ =~= icmp_message(type_value, code, dependent, payload@));
        data
    }
}

impl Icmp {
    /// Sends an ICMP message from `src` to `dest`: see [`Icmp::message`]
    /// and [`Ipv4::output`].
    pub fn output<R: Random, T: Time>(
        stack: &mut Stack,
        interface: &Ipv4Interface,
        type_value: u8,
        code: u8,
        dependent: u32,
        payload: &[u8],
        src: Ipv4Addr,
        dest: Ipv4Addr,
    ) -> (r: Result<usize, Ipv4OutputError<R::Error>>)
        requires
            old(stack).wf(),
        ensures
            final(stack).wf(),
            final(stack).same_tables(old(stack)),
            ipv4_output_outcome(
                old(stack).ipv4_routes@,
                old(stack).interfaces@,
                interface@,
                icmp_message(type_value, code, dependent, payload@).len(),
                src,
                dest,
                r,
            ),
            r is Ok ==> ipv4_packet_sent(
                *old(stack),
                final(stack).devices.sent(),
                Ipv4Protocol::Icmp.spec_value(),
                icmp_message(type_value, code, dependent, payload@),
                src,
                dest,
            ),
    {
        let message = Icmp::message(type_value, code, dependent, payload);
        Ipv4::output::<R, T>(
            stack,
            interface,
            Ipv4Protocol::Icmp.value(),
            message.as_slice(),
            src,
            dest,
        )
    }

    /// Answers the echo request `request` with an echo reply carrying the
    /// same code, identifier, sequence number and data.
    pub fn echo_reply<R: Random, T: Time>(
        stack: &mut Stack,
        interface: &Ipv4Interface,
        request: &IcmpPacket<'_>,
    ) -> (r: Result<usize, Ipv4OutputError<R::Error>>)
        requires
            old(stack).wf(),
        ensures
            final(stack).wf(),
            final(stack).same_tables(old(stack)),
            icmp_echo_reply_outcome(
                *old(stack),
                final(stack).devices.sent(),
                interface@,
                request@.header.code,
                request@.header.dependent,
                request@.payload,
                request@.src,
                r,
            ),
    {
        Icmp::output::<R, T>(
            stack,
            interface,
            IcmpType::EchoReply.value(),
            request.header().code(),
            request.header().dependent(),
            request.payload(),
            interface.unicast(),
            request.src(),
        )
    }

    /// Tells `dest` that the protocol of the packet `offending` starts with
    /// is not supported.
    pub fn destination_unreachable<R: Random, T: Time>(
        stack: &mut Stack,
        interface: &Ipv4Interface,
        offending: &[u8],
        dest: Ipv4Addr,
    ) -> (r: Result<usize, Ipv4OutputError<R::Error>>)
        requires
            old(stack).wf(),
        ensures
            final(stack).wf(),
            final(stack).same_tables(old(stack)),
            ipv4_output_outcome(
                old(stack).ipv4_routes@,
                old(stack).interfaces@,
                interface@,
                icmp_message(
                    IcmpType::DestinationUnreachable.spec_value(),
                    IcmpDestinationUnreachableCode::ProtocolUnreachable.spec_value(),
                    0,
                    offending@,
                ).len(),
                interface@.unicast,
                dest,
                r,
            ),
            r is Ok ==> ipv4_packet_sent(
                *old(stack),
                final(stack).devices.sent(),
                Ipv4Protocol::Icmp.spec_value(),
                icmp_message(
                    IcmpType::DestinationUnreachable.spec_value(),
                    IcmpDestinationUnreachableCode::ProtocolUnreachable.spec_value(),
                    0,
                    offending@,
                ),
                interface@.unicast,
                dest,
            ),
    {
        Icmp::output::<R, T>(
            stack,
            interface,
            IcmpType::DestinationUnreachable.value(),
            IcmpDestinationUnreachableCode::ProtocolUnreachable.value(),
            Icmp::UNUSED,
            offending,
            interface.unicast(),
            dest,
        )
    }

    /// Tells `dest` that nobody holds the port the datagram `offending`
    /// starts with was sent to.
    pub fn port_unreachable<R: Random, T: Time>(
        stack: &mut Stack,
        interface: &Ipv4Interface,
        offending: &[u8],
        dest: Ipv4Addr,
    ) -> (r: Result<usize, Ipv4OutputError<R::Error>>)
        requires
            old(stack).wf(),
        ensures
            final(stack).wf(),
            final(stack).same_tables(old(stack)),
            ipv4_output_outcome(
                old(stack).ipv4_routes@,
                old(stack).interfaces@,
                interface@,
                icmp_message(
                    IcmpType::DestinationUnreachable.spec_value(),
                    IcmpDestinationUnreachableCode::PortUnreachable.spec_value(),
                    0,
                    offending@,
                ).len(),
                interface@.unicast,
                dest,
                r,
            ),
            r is Ok ==> ipv4_packet_sent(
                *old(stack),
                final(stack).devices.sent(),
                Ipv4Protocol::Icmp.spec_value(),
                icmp_message(
                    IcmpType::DestinationUnreachable.spec_value(),
                    IcmpDestinationUnreachableCode::PortUnreachable.spec_value(),
                    0,
                    offending@,
                ),
                interface@.unicast,
                dest,
            ),
    {
        Icmp::output::<R, T>(
            stack,
            interface,
            IcmpType::DestinationUnreachable.value(),
            IcmpDestinationUnreachableCode::PortUnreachable.value(),
            Icmp::UNUSED,
            offending,
            interface.unicast(),
            dest,
        )
    }

    /// Takes a received ICMP message, answering an echo request; a failure
    /// to send the answer does not make the input fail.
    pub fn input<R: Random, T: Time>(stack: &mut Stack, packet: Ipv4Packet<'_>, interface: &Ipv4Interface) -> (r:
        Result<(), IcmpError>)
        requires
            old(stack).wf(),
        ensures
            final(stack).wf(),
            final(stack).same_tables(old(stack)),
            match icmp_header_parse(packet@.payload) {
                Ok(h) => r is Ok && (h.type_value != IcmpType::Echo.spec_value() ==> *final(stack)
                    == *old(stack)) && (h.type_value == IcmpType::Echo.spec_value() ==> exists|
                    reply: Result<usize, Ipv4OutputError<R::Error>>,
                | #[trigger]
                    icmp_echo_reply_outcome(
                        *old(stack),
                        final(stack).devices.sent(),
                        interface@,
                        h.code,
                        h.dependent,
                        seq_from(packet@.payload, ICMP_HEADER_LEN),
                        packet@.header.src,
                        reply,
                    )),
                Err(e) => r == Err::<(), IcmpError>(e) && *final(stack) == *old(stack),
            },
    {
        let message = match IcmpPacket::from_ipv4(packet) {
            Ok(m) => m,
            Err(e) => {
                return Err(e);
            },
        };
        if message.header().type_value() == IcmpType::Echo.value() {
            let _ = Icmp::echo_reply::<R, T>(stack, interface, &message);
        }
        Ok(())
    }
}

/// A message that [`Icmp::message`] builds reads back as a header with the
/// type, code and type-dependent word it was built from.
pub proof fn lemma_icmp_message_roundtrip(type_value: u8, code: u8, dependent: u32, payload: Seq<u8>)
    ensures
        ({
            let m = icmp_message(type_value, code, dependent, payload);
            &&& icmp_header_parse(m) matches Ok(h) && h.type_value == type_value && h.code == code
                && h.dependent == dependent
            &&& seq_from(m, ICMP_HEADER_LEN) == payload
        }),
{
    let z = icmp_message_raw(type_value, code, 0, dependent, payload);
    let c = internet_checksum(z);
    let m = icmp_message(type_value, code, dependent, payload);
    assert(m =~= z.update(2, hi(c)).update(3, lo(c)));
    lemma_checksum_fills_field(z, 2);
    assert(be32_at(m, 4) == dependent);
    assert(seq_from(m, ICMP_HEADER_LEN) =~= payload);
}

} // verus!
