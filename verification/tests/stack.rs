use microps::protocol::{
    Ipv4Addr, Ipv4Endpoint, Socket, SocketDomain, SocketError, SocketType, UdpPcbError,
};
use microps::Stack;

#[test]
fn udp_registry_opens_binds_and_releases_sockets() {
    let mut stack = Stack::new();
    let first = stack.udp_pcbs.open();
    let second = stack.udp_pcbs.open();
    let endpoint = Ipv4Endpoint::new(Ipv4Addr::from([192, 0, 2, 2]), 7);

    assert_eq!(stack.udp_pcbs.bind(first, endpoint), Ok(()));
    assert_eq!(
        stack.udp_pcbs.bind(second, endpoint),
        Err(UdpPcbError::AlreadyBound)
    );
    assert_eq!(stack.udp_pcbs.close(first), Ok(()));
    assert_eq!(stack.udp_pcbs.bind(second, endpoint), Ok(()));
    assert_eq!(stack.udp_pcbs.close(second), Ok(()));
    assert_eq!(stack.udp_pcbs.close(second), Err(UdpPcbError::NotFound));
}

struct NoPlatform;

impl microps::Random for NoPlatform {
    type Error = core::convert::Infallible;

    fn random16() -> Result<u16, Self::Error> {
        Ok(1)
    }
}

impl microps::Time for NoPlatform {
    fn monotonic_time_microseconds() -> u64 {
        0
    }
}

#[test]
fn closing_a_datagram_socket_undoes_opening_it() {
    let mut stack = Stack::new();
    let socket = Socket::open::<core::convert::Infallible>(
        &mut stack,
        SocketDomain::Ipv4,
        SocketType::Datagram,
        None,
    )
    .unwrap();
    assert_eq!(stack.sockets.len(), 1);
    assert_eq!(stack.udp_pcbs.len(), 1);
    assert!(Socket::close::<NoPlatform, NoPlatform>(&mut stack, socket).is_ok());
    assert_eq!(stack.sockets.len(), 0);
    assert_eq!(stack.udp_pcbs.len(), 0);
    assert!(matches!(
        Socket::close::<NoPlatform, NoPlatform>(&mut stack, socket),
        Err(SocketError::NotFound)
    ));
}
