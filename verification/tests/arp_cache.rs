use microps::protocol::{Entries, Ipv4Addr, MacAddr};

#[test]
fn incomplete_entry_is_resolved_by_an_arp_update() {
    let protocol = Ipv4Addr::from([192, 0, 2, 2]);
    let hardware = MacAddr::from([2, 0, 0, 0, 0, 2]);
    let mut entries = Entries::new();

    entries.insert_incomplete(protocol, 0);
    assert_eq!(entries.resolve(protocol, 0), None);
    assert!(entries.update(protocol, hardware, 1));
    assert_eq!(entries.resolve(protocol, 1), Some(hardware));
}
