use microps::protocol::{
    Arp, ArpOperation, ArpOutputError, MacAddr, Ipv4, Ipv4Addr, Ipv4Endpoint, Ipv4Error, Ipv4InputError, Ipv4Interface, Ipv4OutputError, Socket, SocketDomain, SocketType, Tcp,
    TcpInputError, TcpOpenMode, TcpPcbError, TcpState, Udp, UdpError,
};
use microps::{Device, DeviceKind, DeviceMeta, LoopbackDevice, Random, Stack, Time};

struct Platform;

impl Random for Platform {
    type Error = core::convert::Infallible;

    fn random16() -> Result<u16, Self::Error> {
        Ok(0x1234)
    }
}

impl Time for Platform {
    fn monotonic_time_microseconds() -> u64 {
        1_000_000
    }
}

fn loopback_stack() -> Stack {
    let mut stack = Stack::new();
    let device = stack.devices.register(Device::new(
        DeviceMeta::new("lo", DeviceKind::Loopback, 65_535),
        Box::new(LoopbackDevice::new()),
    ));
    let interface = stack.interfaces.register(Ipv4Interface::new(
        Ipv4Addr::from([127, 0, 0, 1]),
        Ipv4Addr::from([255, 0, 0, 0]),
    ));
    stack.interfaces.attach(interface, device).unwrap();
    let attached = stack.interfaces.interface_as(interface).unwrap();
    stack.ipv4_routes.add_interface_route(interface, attached);
    stack.open_all().unwrap();
    stack
}

fn local(port: u16) -> Ipv4Endpoint {
    Ipv4Endpoint::new(Ipv4Addr::from([127, 0, 0, 1]), port)
}

#[test]
fn udp_datagram_is_checked_on_input_and_left_unqueued() {
    let mut stack = loopback_stack();
    let socket = Socket::open::<core::convert::Infallible>(
        &mut stack,
        SocketDomain::Ipv4,
        SocketType::Datagram,
        None,
    )
    .unwrap();
    Socket::bind::<core::convert::Infallible>(&mut stack, socket, local(7)).unwrap();

    let sent = Socket::send_to::<Platform, Platform>(&mut stack, socket, b"hello", local(7));
    assert!(matches!(sent, Ok(5)));
    assert_eq!(stack.input_queue.len(), 1);

    // The datagram is valid, so input reports nothing; it only checks it.
    let failures = stack.soft_input::<Platform, Platform>().unwrap();
    assert!(failures.is_empty());
    assert_eq!(stack.input_queue.len(), 0);

    let mut buffer = [0u8; 16];
    let nothing =
        Socket::recv_from::<core::convert::Infallible>(&mut stack, socket, &mut buffer).unwrap();
    assert_eq!(nothing, None);
}

#[test]
fn udp_datagram_for_an_unbound_port_gets_no_answer() {
    let mut stack = loopback_stack();
    let sender = stack.udp_pcbs.open();
    let sent = Udp::send_to::<Platform, Platform>(&mut stack, sender, b"ping", local(9));
    assert!(matches!(sent, Ok(4)));
    // The sender got the first port of the dynamic range.
    assert_eq!(
        stack.udp_pcbs.assign_dynamic_port(sender).unwrap().port(),
        49152
    );

    let failures = stack.soft_input::<Platform, Platform>().unwrap();
    assert!(failures.is_empty());
    assert_eq!(stack.input_queue.len(), 0);
}

#[test]
fn udp_datagram_with_a_bad_checksum_is_refused() {
    let mut stack = loopback_stack();
    let sender = stack.udp_pcbs.open();
    let sent = Udp::send_to::<Platform, Platform>(&mut stack, sender, b"ping", local(9));
    assert!(matches!(sent, Ok(4)));
    let frame = stack.input_queue.pop().unwrap();
    let mut bytes = frame.data().to_vec();
    // The last payload byte changes; the UDP checksum no longer holds.
    let last = bytes.len() - 1;
    bytes[last] ^= 0xff;
    let interface = stack.interfaces.select_by_address(&[127, 0, 0, 1]).unwrap();
    let interface = stack.interfaces.interface_as(interface).unwrap();
    let result = Ipv4::input::<Platform, Platform>(&mut stack, &bytes, &interface);
    assert!(matches!(
        result,
        Err(Ipv4InputError::Udp(UdpError::InvalidChecksum))
    ));
    assert_eq!(stack.input_queue.len(), 0);
}

#[test]
fn tcp_connection_is_set_up_and_carries_data_over_loopback() {
    let mut stack = loopback_stack();
    let any = Ipv4Endpoint::new(Ipv4Addr::any(), 0);
    let listener =
        Tcp::open::<Platform, Platform>(&mut stack, local(80), any, TcpOpenMode::Passive).unwrap();
    let client =
        Tcp::open::<Platform, Platform>(&mut stack, any, local(80), TcpOpenMode::Active).unwrap();
    assert_eq!(stack.tcp_pcbs.get(client).unwrap().state(), TcpState::SynSent);
    assert_eq!(
        Tcp::poll_connect::<core::convert::Infallible>(&mut stack, client).unwrap(),
        false
    );

    // SYN, SYN-ACK and ACK cross the loopback device one after the other.
    // The client's connection has no listener, so queueing it as an
    // established child is refused and reported, as the stack always did.
    let failures = stack.soft_input::<Platform, Platform>().unwrap();
    assert!(failures.is_empty(), "{:?}", failures);
    let failures = stack.soft_input::<Platform, Platform>().unwrap();
    assert_eq!(failures.len(), 1);
    assert!(matches!(
        failures[0],
        Ipv4InputError::Tcp(TcpInputError::Pcb(TcpPcbError::InvalidState(
            TcpState::Established
        )))
    ));
    assert_eq!(stack.tcp_pcbs.get(client).unwrap().state(), TcpState::Established);
    let failures = stack.soft_input::<Platform, Platform>().unwrap();
    assert!(failures.is_empty(), "{:?}", failures);
    assert_eq!(stack.input_queue.len(), 0);

    assert_eq!(
        Tcp::poll_connect::<core::convert::Infallible>(&mut stack, client).unwrap(),
        true
    );
    let (child, remote) = Tcp::accept::<core::convert::Infallible>(&mut stack, listener)
        .unwrap()
        .expect("an established child waits");
    assert_eq!(remote.address(), Ipv4Addr::from([127, 0, 0, 1]));
    assert_eq!(stack.tcp_pcbs.get(child).unwrap().state(), TcpState::Established);
    assert_eq!(
        Tcp::accept::<core::convert::Infallible>(&mut stack, listener).unwrap(),
        None
    );

    let sent = Tcp::send::<Platform, Platform>(&mut stack, client, b"hi there").unwrap();
    assert_eq!(sent, 8);
    let mut buffer = [0u8; 4];
    assert_eq!(Tcp::receive(&mut stack, child, &mut buffer).unwrap(), None);
    let failures = stack.soft_input::<Platform, Platform>().unwrap();
    assert!(failures.is_empty(), "{:?}", failures);

    assert_eq!(Tcp::receive(&mut stack, child, &mut buffer).unwrap(), Some(4));
    assert_eq!(&buffer, b"hi t");
    assert_eq!(Tcp::receive(&mut stack, child, &mut buffer).unwrap(), Some(4));
    assert_eq!(&buffer, b"here");

    // The client closes: its FIN reaches the child, which then sees the end.
    Tcp::close::<Platform, Platform>(&mut stack, client).unwrap();
    assert_eq!(stack.tcp_pcbs.get(client).unwrap().state(), TcpState::FinWait1);
    for _ in 0..4 {
        let failures = stack.soft_input::<Platform, Platform>().unwrap();
        assert!(failures.is_empty(), "{:?}", failures);
    }
    assert_eq!(stack.tcp_pcbs.get(child).unwrap().state(), TcpState::CloseWait);
    assert_eq!(Tcp::receive(&mut stack, child, &mut buffer).unwrap(), Some(0));
}

#[test]
fn ipv4_output_refuses_a_payload_too_large_for_a_packet() {
    let mut stack = loopback_stack();
    let interface = stack.interfaces.select_by_address(&[127, 0, 0, 1]).unwrap();
    let interface = stack.interfaces.interface_as(interface).unwrap();
    let data = vec![0u8; 65_516];
    let sent = Ipv4::output::<Platform, Platform>(
        &mut stack,
        &interface,
        17,
        &data,
        Ipv4Addr::from([0, 0, 0, 0]),
        Ipv4Addr::from([127, 0, 0, 1]),
    );
    assert!(matches!(
        sent,
        Err(Ipv4OutputError::Packet(Ipv4Error::PayloadTooLarge { len: 65_516 }))
    ));
    assert_eq!(stack.input_queue.len(), 0);
    let fits = Ipv4::output::<Platform, Platform>(
        &mut stack,
        &interface,
        17,
        &data[..65_515],
        Ipv4Addr::from([0, 0, 0, 0]),
        Ipv4Addr::from([127, 0, 0, 1]),
    );
    assert!(matches!(fits, Ok(65_535)));
}

#[test]
fn a_segment_for_no_connection_is_answered_with_a_reset() {
    let mut stack = loopback_stack();
    let any = Ipv4Endpoint::new(Ipv4Addr::any(), 0);
    let client =
        Tcp::open::<Platform, Platform>(&mut stack, any, local(81), TcpOpenMode::Active).unwrap();
    assert_eq!(stack.input_queue.len(), 1);
    // The SYN finds no connection on port 81 and is answered.
    let failures = stack.soft_input::<Platform, Platform>().unwrap();
    assert!(failures.is_empty(), "{:?}", failures);
    assert_eq!(stack.input_queue.len(), 1);
    let answer = stack.input_queue.pop().unwrap();
    let bytes = answer.data();
    assert_eq!(bytes[8], 255);
    assert_eq!(bytes[9], 6);
    assert_eq!(&bytes[12..16], &[127, 0, 0, 1]);
    // RST and ACK, acknowledging the SYN.
    assert_eq!(bytes[20 + 13], 0x14);
    assert_eq!(&bytes[20..22], &[0, 81]);
    assert_eq!(stack.tcp_pcbs.get(client).unwrap().state(), TcpState::SynSent);
}

#[test]
fn a_segment_for_a_closed_connection_is_answered_with_a_reset() {
    let mut stack = loopback_stack();
    let closed = Tcp::socket(&mut stack);
    Tcp::bind(&mut stack, closed, local(82)).unwrap();
    assert_eq!(stack.tcp_pcbs.get(closed).unwrap().state(), TcpState::Closed);
    let any = Ipv4Endpoint::new(Ipv4Addr::any(), 0);
    let client =
        Tcp::open::<Platform, Platform>(&mut stack, any, local(82), TcpOpenMode::Active).unwrap();
    let failures = stack.soft_input::<Platform, Platform>().unwrap();
    assert!(failures.is_empty(), "{:?}", failures);
    assert_eq!(stack.input_queue.len(), 1);
    let answer = stack.input_queue.pop().unwrap();
    let bytes = answer.data();
    assert_eq!(bytes[9], 6);
    // RST and ACK from port 82, acknowledging the SYN.
    assert_eq!(&bytes[20..22], &[0, 82]);
    assert_eq!(bytes[20 + 13], 0x14);
    assert_eq!(&bytes[20 + 4..20 + 8], &[0, 0, 0, 0]);
    assert_eq!(stack.tcp_pcbs.get(closed).unwrap().state(), TcpState::Closed);
    assert_eq!(stack.tcp_pcbs.get(client).unwrap().state(), TcpState::SynSent);
}

#[test]
fn a_listener_answers_a_syn_with_a_syn_ack() {
    let mut stack = loopback_stack();
    let any = Ipv4Endpoint::new(Ipv4Addr::any(), 0);
    Tcp::open::<Platform, Platform>(&mut stack, local(83), any, TcpOpenMode::Passive).unwrap();
    Tcp::open::<Platform, Platform>(&mut stack, any, local(83), TcpOpenMode::Active).unwrap();
    let syn = stack.input_queue.pop().unwrap();
    let syn_bytes = syn.data().to_vec();
    assert_eq!(syn_bytes[20 + 13], 0x02);
    let interface = stack.interfaces.select_by_address(&[127, 0, 0, 1]).unwrap();
    let interface = stack.interfaces.interface_as(interface).unwrap();
    Ipv4::input::<Platform, Platform>(&mut stack, &syn_bytes, &interface).unwrap();
    assert_eq!(stack.input_queue.len(), 1);
    let answer = stack.input_queue.pop().unwrap();
    let bytes = answer.data();
    // SYN and ACK from port 83 back to the client's port, acknowledging
    // the client's initial sequence number plus one.
    assert_eq!(&bytes[20..22], &[0, 83]);
    assert_eq!(&bytes[22..24], &syn_bytes[20..22]);
    assert_eq!(bytes[20 + 13], 0x12);
    let client_iss = u32::from_be_bytes([syn_bytes[24], syn_bytes[25], syn_bytes[26], syn_bytes[27]]);
    let acked = u32::from_be_bytes([bytes[28], bytes[29], bytes[30], bytes[31]]);
    assert_eq!(acked, client_iss.wrapping_add(1));
}

#[test]
fn arp_output_needs_a_reported_hardware_address() {
    let mut stack = loopback_stack();
    let interface = stack.interfaces.select_by_address(&[127, 0, 0, 1]).unwrap();
    let interface = stack.interfaces.interface_as(interface).unwrap();
    let target = Ipv4Addr::from([127, 0, 0, 2]);
    // The loopback device reports no hardware address.
    let refused = Arp::output(&mut stack, &interface, ArpOperation::Request, MacAddr::broadcast(), target);
    assert_eq!(refused, Err(ArpOutputError::HardwareAddressUnavailable));
    assert_eq!(stack.input_queue.len(), 0);
    let none = Arp::output_from(&mut stack, &interface, ArpOperation::Request, None, MacAddr::broadcast(), target);
    assert_eq!(none, Err(ArpOutputError::HardwareAddressUnavailable));
    assert_eq!(stack.input_queue.len(), 0);

    let sender = MacAddr::from([2, 0, 0, 0, 0, 7]);
    let sent = Arp::output_from(
        &mut stack,
        &interface,
        ArpOperation::Request,
        Some(sender),
        MacAddr::broadcast(),
        target,
    );
    assert_eq!(sent, Ok(28));
    let frame = stack.input_queue.pop().unwrap();
    let bytes = frame.data();
    assert_eq!(bytes.len(), 28);
    // Sender hardware and protocol addresses, then the target's.
    assert_eq!(&bytes[8..14], &[2, 0, 0, 0, 0, 7]);
    assert_eq!(&bytes[14..18], &[127, 0, 0, 1]);
    assert_eq!(&bytes[24..28], &[127, 0, 0, 2]);
}
