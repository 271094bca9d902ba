use vstd::prelude::*;

use crate::protocol::arp::PACKET_LEN;
use crate::protocol::ethernet::EtherType;
use crate::protocol::wire::{be16_at, read_be16, seq_len};

verus! {

/// ARP operation codes.
#[derive(Debug, Clone, Copy, PartialEq, Eq, Hash, Structural)]
pub enum ArpOperation {
    Request,
    Reply,
}

/// An operation code that names no ARP operation.
#[derive(Debug, Clone, Copy, PartialEq, Eq, Structural)]
pub struct UnknownArpOperation(pub u16);

impl ArpOperation {
    /// The operation code.
    pub open spec fn spec_value(self) -> u16 {
        match self {
            ArpOperation::Request => 1,
            ArpOperation::Reply => 2,
        }
    }

    /// The operation code.
    pub fn value(self) -> (r: u16)
        ensures
            r == self.spec_value(),
    {
        match self {
            ArpOperation::Request => 1,
            ArpOperation::Reply => 2,
        }
    }
}

/// The operation an operation code names, if any.
pub open spec fn arp_operation_of(v: u16) -> Result<ArpOperation, UnknownArpOperation> {
    if v == 1 {
        Ok(ArpOperation::Request)
    } else if v == 2 {
        Ok(ArpOperation::Reply)
    } else {
        Err(UnknownArpOperation(v))
    }
}

impl TryFrom<u16> for ArpOperation {
    type Error = UnknownArpOperation;

    fn try_from(value: u16) -> (r: Result<ArpOperation, UnknownArpOperation>) {
        if value == 1 {
            Ok(ArpOperation::Request)
        } else if value == 2 {
            Ok(ArpOperation::Reply)
        } else {
            Err(UnknownArpOperation(value))
        }
    }
}

impl vstd::std_specs::convert::TryFromSpecImpl<u16> for ArpOperation {
    open spec fn obeys_try_from_spec() -> bool {
        true
    }

    open spec fn try_from_spec(v: u16) -> Result<ArpOperation, UnknownArpOperation> {
        arp_operation_of(v)
    }
}

/// Reading an operation code back gives the operation it names.
pub proof fn lemma_arp_operation_roundtrip(op: ArpOperation)
    ensures
        arp_operation_of(op.spec_value()) == Ok::<ArpOperation, UnknownArpOperation>(op),
{
}

/// The fixed fields at the start of an ARP packet.
#[derive(Debug, Clone, Copy, PartialEq, Eq, Structural)]
pub struct ArpHeader {
    pub hardware_type: u16,
    pub protocol_type: u16,
    pub hardware_len: u8,
    pub protocol_len: u8,
    pub operation: u16,
}

/// Errors reading an ARP packet.
#[derive(Debug, Clone, Copy, PartialEq, Eq, Structural)]
pub enum ArpError {
    TooShort { len: usize },
    UnsupportedHardware { hardware_type: u16, hardware_len: u8 },
    UnsupportedProtocol { protocol_type: u16, protocol_len: u8 },
}

/// The Ethernet/IPv4 ARP header that `data` starts with, or why it holds none.
pub open spec fn arp_header_parse(data: Seq<u8>) -> Result<ArpHeader, ArpError> {
    if data.len() < PACKET_LEN {
        Err(ArpError::TooShort { len: seq_len(data) })
    } else {
        let h = ArpHeader {
            hardware_type: be16_at(data, 0),
            protocol_type: be16_at(data, 2),
            hardware_len: data[4],
            protocol_len: data[5],
            operation: be16_at(data, 6),
        };
        if h.hardware_type != 1 || h.hardware_len != 6 {
            Err(
                ArpError::UnsupportedHardware {
                    hardware_type: h.hardware_type,
                    hardware_len: h.hardware_len,
                },
            )
        } else if h.protocol_type != EtherType::Ipv4.spec_value() || h.protocol_len != 4 {
            Err(
                ArpError::UnsupportedProtocol {
                    protocol_type: h.protocol_type,
                    protocol_len: h.protocol_len,
                },
            )
        } else {
            Ok(h)
        }
    }
}

impl ArpHeader {
    pub fn hardware_type(&self) -> (r: u16)
        ensures
            r == self.hardware_type,
    {
        self.hardware_type
    }

    pub fn protocol_type(&self) -> (r: u16)
        ensures
            r == self.protocol_type,
    {
        self.protocol_type
    }

    pub fn hardware_len(&self) -> (r: u8)
        ensures
            r == self.hardware_len,
    {
        self.hardware_len
    }

    pub fn protocol_len(&self) -> (r: u8)
        ensures
            r == self.protocol_len,
    {
        self.protocol_len
    }

    pub fn operation(&self) -> (r: u16)
        ensures
            r == self.operation,
    {
        self.operation
    }

    /// Reads the header of an Ethernet/IPv4 ARP packet.
    pub fn parse(data: &[u8]) -> (r: Result<ArpHeader, ArpError>)
        ensures
            match r {
                Ok(h) => arp_header_parse(data@) == Ok::<ArpHeader, ArpError>(h),
                Err(e) => arp_header_parse(data@) == Err::<ArpHeader, ArpError>(e),
            },
    {
        if data.len() < PACKET_LEN {
            return Err(ArpError::TooShort { len: data.len() });
        }
        let header = ArpHeader {
            hardware_type: read_be16(data, 0),
            protocol_type: read_be16(data, 2),
            hardware_len: data[4],
            protocol_len: data[5],
            operation: read_be16(data, 6),
        };
        if header.hardware_type != 1 || header.hardware_len != 6 {
            return Err(
                ArpError::UnsupportedHardware {
                    hardware_type: header.hardware_type,
                    hardware_len: header.hardware_len,
                },
            );
        }
        if header.protocol_type != EtherType::Ipv4.value() || header.protocol_len != 4 {
            return Err(
                ArpError::UnsupportedProtocol {
                    protocol_type: header.protocol_type,
                    protocol_len: header.protocol_len,
                },
            );
        }
        Ok(header)
    }
}

impl<'a> TryFrom<&'a [u8]> for ArpHeader {
    type Error = ArpError;

    fn try_from(data: &'a [u8]) -> (r: Result<ArpHeader, ArpError>)
        ensures
            match r {
                Ok(h) => arp_header_parse(data@) == Ok::<ArpHeader, ArpError>(h),
                Err(e) => arp_header_parse(data@) == Err::<ArpHeader, ArpError>(e),
            },
    {
        ArpHeader::parse(data)
    }
}

impl<'a> vstd::std_specs::convert::TryFromSpecImpl<&'a [u8]> for ArpHeader {
    open spec fn obeys_try_from_spec() -> bool {
        false
    }

    open spec fn try_from_spec(v: &'a [u8]) -> Result<ArpHeader, ArpError> {
        arbitrary()
    }
}

} // verus!
