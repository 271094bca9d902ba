use microps::protocol::{
    Ipv4Addr, Ipv4AddrParseError, Ipv4Endpoint, Ipv4EndpointParseError, MacAddr,
    MacAddrParseError,
};

#[test]
fn mac_address_accepts_either_case_and_a_plus_sign() {
    let upper = "02:00:5E:10:20:3A".parse::<MacAddr>().unwrap();
    assert_eq!(upper.bytes(), [2, 0, 0x5e, 0x10, 0x20, 0x3a]);
    let signed = "+a:00:00:00:00:01".parse::<MacAddr>().unwrap();
    assert_eq!(signed.bytes(), [10, 0, 0, 0, 0, 1]);
}

#[test]
fn mac_address_rejects_malformed_text() {
    for text in [
        "",
        "02:00:5e:10:20",
        "02:00:5e:10:20:30:40",
        "2:00:5e:10:20:30",
        "002:00:5e:10:20:30",
        "02:00:5e:10:20:3g",
        "02-00-5e-10-20-30",
        "-2:00:5e:10:20:30",
        "02:00:5e:10:20:30:",
    ] {
        assert_eq!(MacAddr::parse(text), Err(MacAddrParseError), "{text}");
    }
    assert_eq!(MacAddrParseError.message(), "invalid MAC address");
}

#[test]
fn mac_address_text_reads_back() {
    for bytes in [[0; 6], [0xff; 6], [1, 0x23, 0x45, 0x67, 0x89, 0xab]] {
        let address = MacAddr::from(bytes);
        let text = address.to_string();
        assert_eq!(MacAddr::parse(&text), Ok(address));
    }
    assert_eq!(MacAddr::broadcast().to_string(), "ff:ff:ff:ff:ff:ff");
    assert_eq!(MacAddr::any().to_string(), "00:00:00:00:00:00");
}

#[test]
fn ipv4_address_reads_leading_zeros_and_bounds() {
    assert_eq!(
        "001.002.003.004".parse::<Ipv4Addr>(),
        Ok(Ipv4Addr::from([1, 2, 3, 4]))
    );
    assert_eq!("0.0.0.0".parse::<Ipv4Addr>(), Ok(Ipv4Addr::any()));
    assert_eq!(
        "255.255.255.255".parse::<Ipv4Addr>(),
        Ok(Ipv4Addr::broadcast())
    );
    for text in [
        "",
        "1..2.3",
        "1.2.3.4.5",
        "1.2.3.",
        ".1.2.3",
        "-1.2.3.4",
        "+1.2.3.4",
        "1.2.3.0256",
        "1.2.3.99999999999",
        " 1.2.3.4",
    ] {
        assert_eq!(Ipv4Addr::parse(text), Err(Ipv4AddrParseError), "{text}");
    }
    assert_eq!(Ipv4AddrParseError.message(), "invalid IPv4 address");
}

#[test]
fn ipv4_address_text_reads_back() {
    for octets in [[0, 0, 0, 0], [10, 0, 0, 1], [192, 168, 100, 255], [9, 99, 199, 200]] {
        let address = Ipv4Addr::from(octets);
        let text = address.to_string();
        assert_eq!(text.parse::<Ipv4Addr>(), Ok(address));
    }
    assert_eq!(Ipv4Addr::from([10, 0, 0, 1]).to_string(), "10.0.0.1");
}

#[test]
fn ipv4_endpoint_bounds_and_text() {
    assert_eq!(
        "1.2.3.4:0".parse::<Ipv4Endpoint>(),
        Ok(Ipv4Endpoint::new(Ipv4Addr::from([1, 2, 3, 4]), 0))
    );
    assert_eq!(
        "1.2.3.4:65535".parse::<Ipv4Endpoint>(),
        Ok(Ipv4Endpoint::new(Ipv4Addr::from([1, 2, 3, 4]), 65535))
    );
    for text in [":80", "1.2.3.4:", "1.2.3.4:+80", "1.2.3.4:8:0", "1.2.3:80", "1.2.3.4:8x"] {
        assert_eq!(
            Ipv4Endpoint::parse(text),
            Err(Ipv4EndpointParseError),
            "{text}"
        );
    }
    let endpoint = Ipv4Endpoint::new(Ipv4Addr::from([203, 0, 113, 9]), 443);
    assert_eq!(endpoint.to_string(), "203.0.113.9:443");
    assert_eq!(Ipv4Endpoint::parse(&endpoint.to_string()), Ok(endpoint));
}
