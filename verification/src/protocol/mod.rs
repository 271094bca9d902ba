pub mod arp;
pub mod checksum;
pub mod ethernet;
pub mod icmp;
pub mod ipv4;
pub mod socket;
pub mod text;
pub mod tcp;
pub mod udp;
pub mod wire;

pub use arp::cache::{ArpCache, ArpEntry, Entries};
pub use arp::header::{ArpError, ArpHeader, ArpOperation, UnknownArpOperation};
pub use arp::packet::ArpPacket;
pub use arp::{Arp, ArpOutputError, ArpResolveError};
pub use ethernet::{
    EtherType, EthernetError, EthernetFrame, EthernetHeader, MacAddr, MacAddrParseError,
};
pub use icmp::{
    Icmp, IcmpDestinationUnreachableCode, IcmpError, IcmpHeader, IcmpPacket, IcmpType,
    UnknownIcmpType,
};
pub use ipv4::addr::{Ipv4Addr, Ipv4AddrParseError, Ipv4Endpoint, Ipv4EndpointParseError};
pub use ipv4::header::{Ipv4Error, Ipv4Header};
pub use ipv4::interface::Ipv4Interface;
pub use ipv4::packet::Ipv4Packet;
pub use ipv4::pseudo::Ipv4PseudoHeader;
pub use ipv4::route::{Ipv4Route, Ipv4RoutingTable};
pub use ipv4::{Ipv4, Ipv4InputError, Ipv4OutputError, Ipv4Protocol, UnknownIpv4Protocol};
pub use socket::{
    Socket, SocketDomain, SocketEntry, SocketError, SocketKey, SocketProtocol, SocketRegistry,
    SocketTransport, SocketType,
};
pub use tcp::header::{TcpError, TcpFlags, TcpHeader};
pub use tcp::packet::TcpPacket;
pub use tcp::pcb::{TcpAckResult, TcpPcb, TcpPcbAction, TcpPcbEvent, TcpResponse, TcpSegment};
pub use tcp::registry::{TcpPcbError, TcpPcbRegistry};
pub use tcp::retrans::{Retrans, RetransQueue};
pub use tcp::{
    Tcp, TcpCloseError, TcpInputError, TcpOpenError, TcpOpenMode, TcpOutputError, TcpPcbKey,
    TcpReceiveError, TcpSendError, TcpState,
};
pub use udp::header::{UdpError, UdpHeader, UdpPseudoHeader};
pub use udp::packet::UdpPacket;
pub use udp::registry::{ReceivedDatagram, UdpPcb, UdpPcbError, UdpPcbKey, UdpPcbRegistry};
pub use udp::{Udp, UdpOutputError};
