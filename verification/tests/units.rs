use microps::protocol::checksum::checksum16;
use microps::protocol::tcp::retrans::RetransInfo;
use microps::protocol::{
    ArpCache, Entries, ReceivedDatagram, Ipv4Addr, Ipv4Endpoint, Ipv4Interface, Ipv4Packet, Ipv4Protocol, Ipv4Route,
    Ipv4RoutingTable, MacAddr, RetransQueue, TcpAckResult, TcpFlags, TcpPacket, TcpPcb,
    TcpPcbError, TcpPcbEvent, TcpPcbRegistry, TcpResponse, TcpSegment, TcpState, UdpPacket,
    UdpPcbError, UdpPcbRegistry,
};
use microps::{DeviceState, InputQueue, InterfaceRegistry, ReceivedFrame, Stack};

fn ep(octets: [u8; 4], port: u16) -> Ipv4Endpoint {
    Ipv4Endpoint::new(Ipv4Addr::from(octets), port)
}

#[test]
fn checksum_of_a_known_header_is_zero_once_filled() {
    let header = [
        0x45, 0x00, 0x00, 0x14, 0x12, 0x34, 0x00, 0x00, 0x40, 0x11, 0x7c, 0x6e, 0xc0, 0x00, 0x02,
        0x01, 0xc6, 0x33, 0x64, 0x02,
    ];
    assert_eq!(checksum16(&header), 0);
    let mut blank = header;
    blank[10] = 0;
    blank[11] = 0;
    assert_eq!(checksum16(&blank), 0x7c6e);
    assert_eq!(checksum16(&[]), 0xffff);
    assert_eq!(checksum16(&[0x01]), 0xfeff);
}

#[test]
fn arp_entries_expire_after_the_timeout() {
    let protocol = Ipv4Addr::from([192, 0, 2, 7]);
    let hardware = MacAddr::from([2, 0, 0, 0, 0, 7]);
    let mut cache = ArpCache::new();
    cache.insert(protocol, hardware, 100);
    assert_eq!(cache.resolve(protocol, 130), Some(hardware));
    assert_eq!(cache.resolve(protocol, 131), None);
    // An expired entry is gone, so an update finds nothing to refresh.
    assert!(!cache.update(protocol, hardware, 131));
}

#[test]
fn arp_update_refreshes_only_known_entries() {
    let protocol = Ipv4Addr::from([192, 0, 2, 8]);
    let first = MacAddr::from([2, 0, 0, 0, 0, 8]);
    let second = MacAddr::from([2, 0, 0, 0, 0, 9]);
    let mut entries = Entries::new();
    assert!(!entries.update(protocol, first, 0));
    assert_eq!(entries.resolve(protocol, 0), None);
    entries.insert(protocol, first, 0);
    assert!(entries.update(protocol, second, 10));
    assert_eq!(entries.resolve(protocol, 40), Some(second));
    assert_eq!(entries.find(protocol), Some(0));
}

#[test]
fn device_state_goes_up_and_down() {
    let mut state = DeviceState::new();
    assert!(!state.is_up());
    state.up();
    assert!(state.is_up());
    state.down();
    assert!(!state.is_up());
}

#[test]
fn input_queue_is_first_in_first_out() {
    let mut stack = Stack::new();
    let mut queue = InputQueue::new();
    let key = stack.devices.register(microps::Device::new(
        microps::DeviceMeta::new("dummy", microps::DeviceKind::Dummy, 1500),
        Box::new(microps::DummyDevice::new()),
    ));
    queue.push(ReceivedFrame::new(key, 1, &[1]));
    queue.push(ReceivedFrame::new(key, 2, &[2, 2]));
    assert_eq!(queue.len(), 2);
    assert_eq!(queue.pop().unwrap().frame_type(), 1);
    let second = queue.pop().unwrap();
    assert_eq!(second.data(), &[2, 2]);
    assert!(queue.pop().is_none());
}

#[test]
fn routing_prefers_the_longest_prefix() {
    let mut interfaces = InterfaceRegistry::new();
    let wide = interfaces.register(Ipv4Interface::new(
        Ipv4Addr::from([10, 0, 0, 1]),
        Ipv4Addr::from([255, 0, 0, 0]),
    ));
    let narrow = interfaces.register(Ipv4Interface::new(
        Ipv4Addr::from([10, 1, 0, 1]),
        Ipv4Addr::from([255, 255, 0, 0]),
    ));
    let mut routes = Ipv4RoutingTable::new();
    routes.add_interface_route(wide, interfaces.interface_as(wide).unwrap());
    routes.add_interface_route(narrow, interfaces.interface_as(narrow).unwrap());
    assert_eq!(routes.lookup(Ipv4Addr::from([10, 1, 2, 3])).unwrap().interface(), narrow);
    assert_eq!(routes.lookup(Ipv4Addr::from([10, 2, 2, 3])).unwrap().interface(), wide);
    assert!(routes.lookup(Ipv4Addr::from([192, 0, 2, 1])).is_none());
    routes.set_default_gateway(wide, Ipv4Addr::from([10, 0, 0, 254]));
    let default = routes.lookup(Ipv4Addr::from([192, 0, 2, 1])).unwrap();
    assert_eq!(default.nexthop(), Ipv4Addr::from([10, 0, 0, 254]));
    assert_eq!(
        Ipv4Route::new(
            Ipv4Addr::from([10, 0, 0, 0]),
            Ipv4Addr::from([255, 0, 0, 0]),
            Ipv4Addr::any(),
            wide
        )
        .network(),
        Ipv4Addr::from([10, 0, 0, 0])
    );
}

#[test]
fn interface_is_attached_once() {
    let mut stack = Stack::new();
    let device = stack.devices.register(microps::Device::new(
        microps::DeviceMeta::new("dummy", microps::DeviceKind::Dummy, 1500),
        Box::new(microps::DummyDevice::new()),
    ));
    let key = stack.interfaces.register(Ipv4Interface::new(
        Ipv4Addr::from([192, 0, 2, 1]),
        Ipv4Addr::from([255, 255, 255, 0]),
    ));
    assert_eq!(stack.interfaces.device(key), None);
    assert_eq!(stack.interfaces.attach(key, device), Ok(()));
    assert_eq!(stack.interfaces.device(key), Some(device));
    assert!(stack.interfaces.attach(key, device).is_err());
    assert_eq!(
        stack.interfaces.select_by_address(&[192, 0, 2, 1]),
        Some(key)
    );
    assert_eq!(stack.interfaces.select_by_address(&[192, 0, 2, 2]), None);
}

#[test]
fn udp_packet_build_and_parse_round_trip() {
    let src = ep([192, 0, 2, 1], 1000);
    let dest = ep([192, 0, 2, 2], 2000);
    let datagram = UdpPacket::build(src, dest, b"payload").unwrap();
    let packet = Ipv4Packet::build(
        Ipv4Protocol::Udp.value(),
        &datagram,
        7,
        src.address(),
        dest.address(),
    )
    .unwrap();
    let parsed = UdpPacket::from_ipv4(Ipv4Packet::try_from(&packet[..]).unwrap()).unwrap();
    assert_eq!(parsed.src(), src);
    assert_eq!(parsed.dest(), dest);
    assert_eq!(parsed.payload(), b"payload");
    assert!(UdpPacket::build(src, dest, &vec![0u8; 65528]).is_err());
}

#[test]
fn tcp_packet_build_and_parse_round_trip() {
    let src = ep([192, 0, 2, 1], 1000);
    let dest = ep([192, 0, 2, 2], 80);
    let flags = TcpFlags::ack().union(TcpFlags::psh());
    let segment = TcpPacket::build(src, dest, 7, 9, flags, 512, b"data").unwrap();
    let packet = Ipv4Packet::build(
        Ipv4Protocol::Tcp.value(),
        &segment,
        7,
        src.address(),
        dest.address(),
    )
    .unwrap();
    let parsed = TcpPacket::from_ipv4(Ipv4Packet::try_from(&packet[..]).unwrap()).unwrap();
    assert_eq!(parsed.src(), src);
    assert_eq!(parsed.dest(), dest);
    assert_eq!(parsed.header().sequence_number(), 7);
    assert_eq!(parsed.header().ack(), 9);
    assert_eq!(parsed.header().flags(), flags);
    assert_eq!(parsed.header().window_size(), 512);
    assert_eq!(parsed.payload(), b"data");
}

#[test]
fn tcp_active_open_completes_on_a_syn_ack() {
    let mut pcb = TcpPcb::new();
    pcb.connect(ep([192, 0, 2, 1], 40000), ep([192, 0, 2, 2], 80), 1000);
    assert_eq!(pcb.state(), TcpState::SynSent);
    assert_eq!(pcb.snd_nxt(), 1001);
    let segment = TcpSegment {
        seq: 5000,
        ack: 1001,
        length: 1,
        window: 2048,
        flags: TcpFlags::syn().union(TcpFlags::ack()),
        data: &[],
    };
    let action = pcb.on_segment(&segment, 0);
    assert_eq!(pcb.state(), TcpState::Established);
    assert_eq!(pcb.rcv_nxt(), 5001);
    assert_eq!(pcb.snd_una(), 1001);
    assert_eq!(pcb.snd_wnd(), 2048);
    assert_eq!(action.event, TcpPcbEvent::Established);
    assert_eq!(action.response, Some(TcpResponse::FromPcb(TcpFlags::ack())));
}

#[test]
fn tcp_syn_sent_resets_an_unacceptable_ack() {
    let mut pcb = TcpPcb::new();
    pcb.connect(ep([192, 0, 2, 1], 40000), ep([192, 0, 2, 2], 80), 1000);
    let segment = TcpSegment {
        seq: 5000,
        ack: 3000,
        length: 0,
        window: 0,
        flags: TcpFlags::ack(),
        data: &[],
    };
    let action = pcb.on_segment(&segment, 0);
    assert_eq!(pcb.state(), TcpState::SynSent);
    assert_eq!(
        action.response,
        Some(TcpResponse::Reset { seq: 3000, ack: 0 })
    );
}

#[test]
fn tcp_unacceptable_segment_is_answered_and_changes_nothing() {
    let mut pcb = TcpPcb::new();
    pcb.accept_syn(ep([0, 0, 0, 0], 7), ep([192, 0, 2, 2], 5000), 100, 200);
    pcb.accept_ack(101, 201, 4096);
    let before_rcv = pcb.rcv_nxt();
    assert!(!pcb.accept_segment(before_rcv.wrapping_sub(10), 1));
    let segment = TcpSegment {
        seq: before_rcv.wrapping_sub(10),
        ack: 201,
        length: 1,
        window: 4096,
        flags: TcpFlags::ack(),
        data: b"x",
    };
    let action = pcb.on_segment(&segment, 0);
    assert_eq!(pcb.rcv_nxt(), before_rcv);
    assert!(!pcb.has_received_data());
    assert_eq!(action.response, Some(TcpResponse::FromPcb(TcpFlags::ack())));
}

#[test]
fn tcp_receive_returns_accepted_payload_in_order() {
    let mut pcb = TcpPcb::new();
    pcb.accept_syn(ep([0, 0, 0, 0], 7), ep([192, 0, 2, 2], 5000), 100, 200);
    assert_eq!(pcb.accept_ack(101, 201, 4096), TcpAckResult::Accepted);
    assert!(pcb.accept_payload(101, b"abc"));
    assert!(!pcb.accept_payload(101, b"zzz"));
    assert!(pcb.accept_payload(104, b"de"));
    assert_eq!(pcb.rcv_wnd(), 65535 - 5);
    let mut buffer = [0u8; 4];
    assert_eq!(pcb.receive(&mut buffer), 4);
    assert_eq!(&buffer, b"abcd");
    assert_eq!(pcb.rcv_wnd(), 65535 - 1);
    assert_eq!(pcb.receive(&mut buffer), 1);
    assert_eq!(buffer[0], b'e');
    assert!(!pcb.has_received_data());
}

#[test]
fn retransmission_cleanup_drops_acknowledged_segments() {
    let info = RetransInfo {
        local: ep([192, 0, 2, 1], 1),
        remote: ep([192, 0, 2, 2], 2),
        ack: 0,
        window: 100,
    };
    let mut queue = RetransQueue::new();
    queue.enqueue(100, TcpFlags::syn(), &[], 0, info);
    queue.enqueue(101, TcpFlags::ack(), b"abcd", 0, info);
    queue.enqueue(105, TcpFlags::fin(), &[], 0, info);
    assert_eq!(queue.len(), 3);
    queue.cleanup(100);
    assert_eq!(queue.len(), 3);
    queue.cleanup(104);
    assert_eq!(queue.len(), 2);
    queue.cleanup(106);
    assert_eq!(queue.len(), 0);
}

#[test]
fn retransmission_is_due_after_the_timeout_and_expires_at_the_deadline() {
    let info = RetransInfo {
        local: ep([192, 0, 2, 1], 1),
        remote: ep([192, 0, 2, 2], 2),
        ack: 9,
        window: 100,
    };
    let mut queue = RetransQueue::new();
    queue.enqueue(100, TcpFlags::ack(), b"ab", 0, info);
    let early = queue.due(1, info);
    assert!(!early.expired);
    assert!(early.entries.is_empty());
    let due = queue.due(200_000, info);
    assert!(!due.expired);
    assert_eq!(due.entries.len(), 1);
    assert_eq!(due.entries[0].seq(), 100);
    assert_eq!(due.entries[0].ack(), 9);
    assert_eq!(due.entries[0].payload(), b"ab");
    let late = queue.due(12_000_001, info);
    assert!(late.expired);
    assert!(late.entries.is_empty());
}

#[test]
fn tcp_registry_refuses_bad_binds_and_listens() {
    let mut pcbs = TcpPcbRegistry::new();
    let first = pcbs.open();
    let second = pcbs.open();
    assert_eq!(
        pcbs.bind(first, ep([192, 0, 2, 1], 0)),
        Err(TcpPcbError::InvalidEndpoint)
    );
    assert_eq!(pcbs.listen(first, 1), Err(TcpPcbError::InvalidEndpoint));
    assert_eq!(pcbs.bind(first, ep([192, 0, 2, 1], 80)), Ok(()));
    assert_eq!(pcbs.listen(first, 2), Ok(()));
    assert_eq!(
        pcbs.bind(second, ep([192, 0, 2, 1], 80)),
        Err(TcpPcbError::AlreadyBound)
    );
    assert_eq!(
        pcbs.listen(first, 2),
        Err(TcpPcbError::InvalidState(TcpState::Listen))
    );
    assert_eq!(pcbs.accept(first), Ok(None));
    assert_eq!(pcbs.accept(second), Err(TcpPcbError::InvalidState(TcpState::Closed)));
    let found = pcbs.select(ep([192, 0, 2, 1], 80), ep([198, 51, 100, 1], 4000));
    assert_eq!(found, Some((first, TcpState::Listen)));
    assert!(pcbs.close(first));
    assert!(!pcbs.close(first));
    assert_eq!(pcbs.bind(second, ep([192, 0, 2, 1], 80)), Ok(()));
    assert_eq!(pcbs.len(), 1);
}

#[test]
fn tcp_listener_queues_established_children() {
    let mut pcbs = TcpPcbRegistry::new();
    let listener = pcbs.open();
    pcbs.bind(listener, ep([192, 0, 2, 1], 80)).unwrap();
    pcbs.listen(listener, 1).unwrap();
    let remote = ep([198, 51, 100, 1], 4000);
    let child = pcbs
        .allocate_child(listener, ep([192, 0, 2, 1], 80), remote, 10, 20)
        .unwrap();
    assert_eq!(pcbs.get(child).unwrap().state(), TcpState::SynReceived);
    assert_eq!(pcbs.get(child).unwrap().parent(), Some(listener));
    assert_eq!(pcbs.enqueue_established(child), Ok(()));
    assert_eq!(
        pcbs.allocate_child(listener, ep([192, 0, 2, 1], 80), remote, 11, 21),
        Err(TcpPcbError::BacklogFull)
    );
    assert_eq!(pcbs.accept(listener), Ok(Some(child)));
    assert_eq!(pcbs.accept(listener), Ok(None));
    assert_eq!(
        pcbs.enqueue_established(listener),
        Err(TcpPcbError::InvalidState(TcpState::Established))
    );
}

#[test]
fn udp_registry_assigns_the_lowest_free_dynamic_port() {
    let mut pcbs = UdpPcbRegistry::new();
    let first = pcbs.open();
    let second = pcbs.open();
    assert_eq!(pcbs.assign_dynamic_port(first).unwrap().port(), 49152);
    assert_eq!(pcbs.assign_dynamic_port(first).unwrap().port(), 49152);
    assert_eq!(pcbs.assign_dynamic_port(second).unwrap().port(), 49153);
    assert_eq!(pcbs.select(ep([192, 0, 2, 1], 49153)), Some(second));
    assert_eq!(pcbs.select(ep([192, 0, 2, 1], 7)), None);
    pcbs.close(first).unwrap();
    assert_eq!(pcbs.close(first), Err(UdpPcbError::NotFound));
    assert_eq!(
        pcbs.assign_dynamic_port(first),
        Err(UdpPcbError::NotFound)
    );
}

#[test]
fn udp_registry_reads_datagrams_oldest_first() {
    let mut pcbs = UdpPcbRegistry::new();
    let pcb = pcbs.open();
    pcbs.bind(pcb, ep([0, 0, 0, 0], 7)).unwrap();
    let sender = ep([192, 0, 2, 9], 1234);
    pcbs.enqueue(pcb, ReceivedDatagram::new(sender, b"first".to_vec())).unwrap();
    pcbs.enqueue(pcb, ReceivedDatagram::new(sender, b"second".to_vec())).unwrap();
    let mut small = [0u8; 3];
    assert_eq!(pcbs.recv_from(pcb, &mut small), Ok(Some((3, sender))));
    assert_eq!(&small, b"fir");
    let mut large = [0u8; 10];
    assert_eq!(pcbs.recv_from(pcb, &mut large), Ok(Some((6, sender))));
    assert_eq!(&large[..6], b"second");
    assert_eq!(pcbs.recv_from(pcb, &mut large), Ok(None));
}

#[test]
fn tcp_listener_accepts_children_in_the_order_they_were_established() {
    let mut pcbs = TcpPcbRegistry::new();
    let listener = pcbs.open();
    let local = ep([192, 0, 2, 1], 80);
    pcbs.bind(listener, local).unwrap();
    pcbs.listen(listener, 3).unwrap();
    let first = pcbs.allocate_child(listener, local, ep([198, 51, 100, 1], 4000), 10, 20).unwrap();
    let second = pcbs.allocate_child(listener, local, ep([198, 51, 100, 2], 4001), 30, 40).unwrap();
    assert_eq!(pcbs.enqueue_established(second), Ok(()));
    assert_eq!(pcbs.enqueue_established(first), Ok(()));
    assert_eq!(pcbs.enqueue_established(second), Ok(()));
    assert_eq!(pcbs.accept(listener), Ok(Some(second)));
    assert_eq!(pcbs.accept(listener), Ok(Some(first)));
    assert_eq!(pcbs.accept(listener), Ok(None));
}

#[test]
fn udp_close_releases_the_endpoint() {
    let mut pcbs = UdpPcbRegistry::new();
    let first = pcbs.open();
    let second = pcbs.open();
    let local = ep([192, 0, 2, 1], 53);
    pcbs.bind(first, local).unwrap();
    assert_eq!(pcbs.bind(second, local), Err(UdpPcbError::AlreadyBound));
    pcbs.close(first).unwrap();
    assert_eq!(pcbs.bind(second, local), Ok(()));
    assert_eq!(pcbs.select(local), Some(second));
}

#[test]
fn an_interface_route_covers_its_subnet() {
    let mut interfaces = InterfaceRegistry::new();
    let key = interfaces.register(Ipv4Interface::new(
        Ipv4Addr::from([192, 0, 2, 1]),
        Ipv4Addr::from([255, 255, 255, 0]),
    ));
    let interface = interfaces.interface_as(key).unwrap();
    let mut routes = Ipv4RoutingTable::new();
    routes.add_interface_route(key, interface);
    assert!(routes.lookup(Ipv4Addr::from([192, 0, 2, 77])).is_some());
    assert!(routes.lookup(Ipv4Addr::from([192, 0, 2, 255])).is_some());
    assert!(routes.lookup(Ipv4Addr::from([192, 0, 3, 1])).is_none());
}

#[test]
fn tcp_reset_and_syn_close_a_synchronized_connection() {
    let mut pcb = TcpPcb::new();
    pcb.accept_syn(ep([0, 0, 0, 0], 7), ep([192, 0, 2, 2], 5000), 100, 200);
    pcb.accept_ack(101, 201, 4096);
    let reset = TcpSegment {
        seq: 101,
        ack: 0,
        length: 0,
        window: 0,
        flags: TcpFlags::rst(),
        data: &[],
    };
    let action = pcb.on_segment(&reset, 0);
    assert_eq!(action.response, None);
    assert_eq!(action.event, TcpPcbEvent::Close);
    let syn = TcpSegment {
        seq: 101,
        ack: 0,
        length: 1,
        window: 0,
        flags: TcpFlags::syn(),
        data: &[],
    };
    let action = pcb.on_segment(&syn, 0);
    assert_eq!(action.response, Some(TcpResponse::FromPcb(TcpFlags::rst())));
    assert_eq!(action.event, TcpPcbEvent::Close);
}
