use microps::protocol::{
    Ipv4Addr, Ipv4Endpoint, TcpFlags, TcpPcb, TcpPcbEvent, TcpResponse, TcpSegment, TcpState,
};

fn connected_pcb() -> TcpPcb {
    let local = Ipv4Endpoint::new(Ipv4Addr::any(), 7);
    let remote = Ipv4Endpoint::new(Ipv4Addr::from([192, 0, 2, 2]), 50000);
    let mut pcb = TcpPcb::new();
    pcb.accept_syn(local, remote, 100, 200);
    pcb.accept_ack(101, 201, 4096);
    pcb
}

#[test]
fn syn_received_ack_becomes_established() {
    let mut pcb = TcpPcb::new();
    pcb.accept_syn(
        Ipv4Endpoint::new(Ipv4Addr::any(), 7),
        Ipv4Endpoint::new(Ipv4Addr::from([192, 0, 2, 2]), 50000),
        100,
        200,
    );
    let segment = TcpSegment {
        seq: 101,
        ack: 201,
        length: 0,
        window: 4096,
        flags: TcpFlags::ack(),
        data: &[],
    };

    let action = pcb.on_segment(&segment, 0);

    assert_eq!(pcb.state(), TcpState::Established);
    assert_eq!(action.response, None);
    assert_eq!(action.event, TcpPcbEvent::Established);
}

#[test]
fn payload_and_fin_are_processed_in_one_segment() {
    let mut pcb = connected_pcb();
    let segment = TcpSegment {
        seq: 101,
        ack: 201,
        length: 4,
        window: 4096,
        flags: TcpFlags::ack().union(TcpFlags::fin()),
        data: b"hey",
    };

    let action = pcb.on_segment(&segment, 0);

    assert_eq!(pcb.state(), TcpState::CloseWait);
    assert_eq!(pcb.rcv_nxt(), 105);
    assert_eq!(action.response, Some(TcpResponse::FromPcb(TcpFlags::ack())));
    assert!(pcb.has_received_data());
}

#[test]
fn last_ack_is_closed_by_the_final_ack() {
    let mut pcb = connected_pcb();
    pcb.enter_last_ack();
    let segment = TcpSegment {
        seq: 101,
        ack: pcb.snd_nxt(),
        length: 0,
        window: 4096,
        flags: TcpFlags::ack(),
        data: &[],
    };

    let action = pcb.on_segment(&segment, 0);

    assert_eq!(action.response, None);
    assert_eq!(action.event, TcpPcbEvent::Close);
}
