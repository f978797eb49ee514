use discover::discover::{
    output_found_device, scan_header, scan_network, DeviceKind, ScanAction, ScanEvent, ScanPhase,
    Scanner, Sighting,
};
use discover::models::{
    arpreq, icmphdr, ipv4_from_octets, octets, u16_to_be_bytes, AddrLookupError, DiscoverError,
    InterfaceAddress, IpAddr, MacAddress, NetworkInterface, SockAddr, Subnet, PROTO_IPV4,
};
use discover::network::{
    checksum_of, create_icmp_ping_message, get_netw_addr, getaddr, getaddr_details, ones_in,
    parse_addr_info, recv_ping, word_from_bytes, RecvOutcome,
};
use discover::text::{ipv4_to_string, pad_right_to};

fn ip(a: u8, b: u8, c: u8, d: u8) -> u32 {
    u32::from_be_bytes([a, b, c, d])
}

const MAC: MacAddress = MacAddress { addr: [0x0a, 0x1b, 0x2c, 0x3d, 0x4e, 0x5f] };

#[test]
fn subnet_new_masks_ipv4_host_bits() {
    let s = Subnet::new(IpAddr::V4(ip(192, 168, 1, 23)), 24);
    assert_eq!(s, Subnet { ip: IpAddr::V4(ip(192, 168, 1, 0)), mask: 24 });
    let s = Subnet::new(IpAddr::V4(ip(10, 1, 2, 3)), 8);
    assert_eq!(s.ip, IpAddr::V4(ip(10, 0, 0, 0)));
    let s = Subnet::new(IpAddr::V4(ip(172, 16, 200, 7)), 20);
    assert_eq!(s.ip, IpAddr::V4(ip(172, 16, 192, 0)));
}

#[test]
fn subnet_new_prefix_edges() {
    assert_eq!(Subnet::new(IpAddr::V4(ip(1, 2, 3, 4)), 0).ip, IpAddr::V4(0));
    assert_eq!(Subnet::new(IpAddr::V4(ip(1, 2, 3, 4)), 32).ip, IpAddr::V4(ip(1, 2, 3, 4)));
    assert_eq!(Subnet::new(IpAddr::V4(ip(255, 255, 255, 255)), 1).ip, IpAddr::V4(ip(128, 0, 0, 0)));
}

#[test]
fn subnet_new_ipv6_mask() {
    // The IPv6 mask keeps prefix + 1 bits ending at bit 64.
    assert_eq!(Subnet::new(IpAddr::V6(u128::MAX), 0).ip, IpAddr::V6(1u128 << 64));
    assert_eq!(Subnet::new(IpAddr::V6(u128::MAX), 64).ip, IpAddr::V6((1u128 << 65) - 1));
    assert_eq!(Subnet::new(IpAddr::V6(u128::MAX), 8).ip, IpAddr::V6(((1u128 << 9) - 1) << 56));
    assert_eq!(Subnet::new(IpAddr::V6(0), 48).ip, IpAddr::V6(0));
}

#[test]
fn subnet_new_is_idempotent() {
    let first = Subnet::new(IpAddr::V4(ip(192, 168, 77, 201)), 22);
    let again = Subnet::new(first.ip, 22);
    assert_eq!(first, again);
    let v6 = Subnet::new(IpAddr::V6(0x1234_5678_9abc_def0_1234_5678_9abc_def0), 40);
    assert_eq!(Subnet::new(v6.ip, 40), v6);
}

#[test]
fn subnet_ips_of_small_blocks() {
    let s = Subnet::new(IpAddr::V4(ip(192, 168, 1, 2)), 30);
    assert_eq!(s.get_subnet_ips(), vec![ip(192, 168, 1, 1), ip(192, 168, 1, 2)]);
    let s = Subnet::new(IpAddr::V4(ip(192, 168, 1, 2)), 29);
    assert_eq!(s.get_subnet_ips(), (1..7).map(|i| ip(192, 168, 1, i)).collect::<Vec<_>>());
    assert!(Subnet::new(IpAddr::V4(ip(192, 168, 1, 2)), 31).get_subnet_ips().is_empty());
    assert!(Subnet::new(IpAddr::V4(ip(192, 168, 1, 2)), 32).get_subnet_ips().is_empty());
}

#[test]
fn subnet_ips_of_a_class_c_block() {
    let s = Subnet::new(IpAddr::V4(ip(192, 168, 1, 77)), 24);
    let ips = s.get_subnet_ips();
    assert_eq!(ips.len(), 254);
    assert_eq!(ips[0], ip(192, 168, 1, 1));
    assert_eq!(ips[253], ip(192, 168, 1, 254));
    assert!(ips.contains(&ip(192, 168, 1, 77)));
    assert!(!ips.contains(&ip(192, 168, 1, 0)));
    assert!(!ips.contains(&ip(192, 168, 1, 255)));
    assert!(ips.windows(2).all(|w| w[0] + 1 == w[1]));
}

#[test]
fn subnet_ips_of_ipv6_is_empty() {
    let s = Subnet { ip: IpAddr::V6(42), mask: 64 };
    assert!(s.get_subnet_ips().is_empty());
}

#[test]
fn lists_hosts_conditions() {
    assert!(Subnet::new(IpAddr::V4(ip(10, 0, 0, 1)), 8).lists_hosts());
    assert!(Subnet::new(IpAddr::V4(ip(255, 255, 255, 255)), 1).lists_hosts());
    assert!(!Subnet { ip: IpAddr::V4(0), mask: 0 }.lists_hosts());
    assert!(!Subnet { ip: IpAddr::V4(0), mask: 33 }.lists_hosts());
    // Not aligned: the last host would pass the end of the IPv4 range.
    assert!(!Subnet { ip: IpAddr::V4(ip(255, 255, 255, 250)), mask: 24 }.lists_hosts());
    assert!(Subnet { ip: IpAddr::V6(7), mask: 200 }.lists_hosts());
}

#[test]
fn octets_and_back() {
    assert_eq!(octets(ip(192, 168, 1, 10)), [192, 168, 1, 10]);
    assert_eq!(ipv4_from_octets([10, 20, 30, 40]), ip(10, 20, 30, 40));
    for v in [0u32, 1, 0xdead_beef, u32::MAX] {
        assert_eq!(ipv4_from_octets(octets(v)), v);
    }
    assert_eq!(u16_to_be_bytes(0x0806), [0x08, 0x06]);
}

#[test]
fn ping_message_fields_and_checksum() {
    let hdr = create_icmp_ping_message();
    assert_eq!(hdr, icmphdr { icmp_type: 8, code: 0, checksum: 0xf7fe, id: 0, seq: 1 });
    assert_eq!(hdr.to_bytes(), [8, 0, 0xf7, 0xfe, 0, 0, 0, 1]);
}

#[test]
fn checksum_verifies_when_inserted() {
    let hdr = create_icmp_ping_message();
    let words = [word_from_bytes(hdr.icmp_type, hdr.code), hdr.checksum, hdr.id, hdr.seq];
    // One's complement sum of all ones: the complement is zero.
    assert_eq!(checksum_of(words), 0);
    let words = [0x4500, 0, 0xffff, 0x1234];
    let c = checksum_of(words);
    assert_eq!(checksum_of([0x4500, c, 0xffff, 0x1234]), 0);
    assert_eq!(checksum_of([0, 0, 0, 0]), 0xffff);
    assert_eq!(word_from_bytes(0x12, 0x34), 0x1234);
}

#[test]
fn arp_request_wire_format() {
    let req = arpreq::request(MAC, ip(192, 168, 1, 5), ip(192, 168, 1, 9));
    assert_eq!(req.arphdr.ar_hrd, 1);
    assert_eq!(req.arphdr.ar_pro, PROTO_IPV4);
    assert_eq!(req.arphdr.ar_op, 1);
    assert_eq!(req.dst_mac, [0; 6]);
    let bytes = req.to_bytes();
    assert_eq!(
        bytes,
        [
            0x00, 0x01, 0x08, 0x00, 6, 4, 0x00, 0x01, 0x0a, 0x1b, 0x2c, 0x3d, 0x4e, 0x5f, 192, 168, 1,
            5, 0, 0, 0, 0, 0, 0, 192, 168, 1, 9
        ]
    );
}

#[test]
fn mac_address_text() {
    assert_eq!(MAC.fmt(None), "0a:1b:2c:3d:4e:5f");
    assert_eq!(MAC.fmt(Some(20)), "0a:1b:2c:3d:4e:5f   ");
    assert_eq!(MAC.fmt(Some(4)), "0a:1b:2c:3d:4e:5f");
    assert_eq!(MacAddress { addr: [0xff; 6] }.fmt(None), "ff:ff:ff:ff:ff:ff");
}

#[test]
fn ipv4_text_and_padding() {
    assert_eq!(ipv4_to_string(ip(192, 168, 1, 10)), "192.168.1.10");
    assert_eq!(ipv4_to_string(0), "0.0.0.0");
    assert_eq!(ipv4_to_string(u32::MAX), "255.255.255.255");
    assert_eq!(ipv4_to_string(ip(10, 99, 100, 9)), "10.99.100.9");
    assert_eq!(pad_right_to("ab", 4), "ab  ");
    assert_eq!(pad_right_to("abcdef", 4), "abcdef");
}

#[test]
fn output_lines() {
    assert_eq!(
        scan_header(),
        format!("{:<20} {:<20} Device Type", "IP address", "MAC Address")
    );
    let line = output_found_device("192.168.1.10", &MAC, "This PC");
    assert_eq!(line, format!("{:<20} {:<20} {}", "192.168.1.10", "0a:1b:2c:3d:4e:5f", "This PC"));
    let d = Sighting { ip: ip(10, 0, 0, 7), mac: MAC, kind: DeviceKind::Unknown }.to_device();
    assert_eq!(d.ip, "10.0.0.7");
    assert_eq!(d.device_type, "unkown");
    assert_eq!(d.mac, MAC);
    let d = Sighting { ip: 1, mac: MAC, kind: DeviceKind::ThisPc }.to_device();
    assert_eq!(d.device_type, "This PC");
}

#[test]
fn popcount_of_netmasks() {
    assert_eq!(ones_in(0), 0);
    assert_eq!(ones_in(u32::MAX), 32);
    assert_eq!(ones_in(ip(255, 255, 255, 0)), 24);
    assert_eq!(ones_in(ip(255, 255, 240, 0)), 20);
    assert_eq!(ones_in(0x8000_0001), 2);
}

#[test]
fn parse_addr_info_families() {
    assert_eq!(parse_addr_info(&SockAddr::Inet { addr: [127, 0, 0, 1] }), Some(ip(127, 0, 0, 1)));
    assert_eq!(parse_addr_info(&SockAddr::Other { family: 10 }), None);
    assert_eq!(parse_addr_info(&SockAddr::Packet { halen: 6, hwaddr: [1; 8] }), None);
}

#[test]
fn getaddr_first_ipv4() {
    let addrs = vec![
        Some(SockAddr::Other { family: 10 }),
        None,
        Some(SockAddr::Inet { addr: [192, 168, 1, 5] }),
        Some(SockAddr::Inet { addr: [10, 0, 0, 1] }),
    ];
    assert_eq!(getaddr(&addrs).unwrap(), ip(192, 168, 1, 5));
    assert!(matches!(getaddr(&vec![]), Err(DiscoverError::NetworkInterfaceNotFound)));
    assert!(matches!(
        getaddr(&vec![Some(SockAddr::Other { family: 10 })]),
        Err(DiscoverError::NetworkInterfaceNotFound)
    ));
}

fn table() -> Vec<InterfaceAddress> {
    vec![
        InterfaceAddress { name: "lo".to_string(), addr: Some(SockAddr::Inet { addr: [127, 0, 0, 1] }), netmask: [255, 0, 0, 0] },
        InterfaceAddress { name: "eth0".to_string(), addr: None, netmask: [0; 4] },
        InterfaceAddress { name: "eth0".to_string(), addr: Some(SockAddr::Inet { addr: [192, 168, 1, 5] }), netmask: [255, 255, 255, 0] },
        InterfaceAddress { name: "eth0".to_string(), addr: Some(SockAddr::Packet { halen: 0, hwaddr: [9; 8] }), netmask: [0; 4] },
        InterfaceAddress { name: "wlan0".to_string(), addr: Some(SockAddr::Packet { halen: 6, hwaddr: [7; 8] }), netmask: [0; 4] },
        InterfaceAddress {
            name: "eth0".to_string(),
            addr: Some(SockAddr::Packet { halen: 6, hwaddr: [0x0a, 0x1b, 0x2c, 0x3d, 0x4e, 0x5f, 0, 0] }),
            netmask: [0; 4],
        },
    ]
}

#[test]
fn getaddr_details_finds_interface() {
    let (mac, mask, name) = getaddr_details(ip(192, 168, 1, 5), &table()).unwrap();
    assert_eq!(mac, MAC);
    assert_eq!(mask, 24);
    assert_eq!(name, "eth0");
}

#[test]
fn getaddr_details_errors() {
    assert!(matches!(
        getaddr_details(ip(192, 168, 1, 6), &table()),
        Err(DiscoverError::NetworkInterfaceNotFound)
    ));
    // The loopback interface has no link-layer entry.
    assert!(matches!(
        getaddr_details(ip(127, 0, 0, 1), &table()),
        Err(DiscoverError::NetworkInterfaceNotFound)
    ));
}

#[test]
fn get_netw_addr_success() {
    let addrs = vec![Some(SockAddr::Inet { addr: [192, 168, 1, 5] })];
    let ni = get_netw_addr(Ok(addrs), Ok(table())).unwrap();
    assert_eq!(
        ni,
        NetworkInterface {
            ifname: "eth0".to_string(),
            ip: ip(192, 168, 1, 5),
            mac: MAC,
            subnet: Subnet { ip: IpAddr::V4(ip(192, 168, 1, 0)), mask: 24 },
        }
    );
}

#[test]
fn get_netw_addr_stages() {
    let kernel = DiscoverError::KernelError { os_error: 2, details: "getaddrinfo error".to_string() };
    assert!(matches!(
        get_netw_addr(Err(kernel), Ok(table())),
        Err(AddrLookupError::LocalAddress(DiscoverError::KernelError { os_error: 2, .. }))
    ));
    assert!(matches!(
        get_netw_addr(Ok(vec![]), Ok(table())),
        Err(AddrLookupError::LocalAddress(DiscoverError::NetworkInterfaceNotFound))
    ));
    let addrs = vec![Some(SockAddr::Inet { addr: [192, 168, 1, 5] })];
    let ifs = DiscoverError::KernelError { os_error: 12, details: "getifaddrs error".to_string() };
    match get_netw_addr(Ok(addrs), Err(ifs)) {
        Err(AddrLookupError::InterfaceDetails { ip: i, error: DiscoverError::KernelError { os_error: 12, .. } }) => {
            assert_eq!(i, ip(192, 168, 1, 5))
        }
        other => panic!("unexpected {:?}", other),
    }
    let addrs = vec![Some(SockAddr::Inet { addr: [192, 168, 9, 9] })];
    assert!(matches!(
        get_netw_addr(Ok(addrs), Ok(table())),
        Err(AddrLookupError::InterfaceDetails { error: DiscoverError::NetworkInterfaceNotFound, .. })
    ));
}

#[test]
fn recv_ping_outcomes() {
    let from = SockAddr::Inet { addr: [192, 168, 1, 9] };
    assert_eq!(
        recv_ping(RecvOutcome::Received { data: vec![0, 0, 1, 2], from }).unwrap(),
        Some(ip(192, 168, 1, 9))
    );
    // Type 3 (destination unreachable) is no echo reply.
    assert_eq!(recv_ping(RecvOutcome::Received { data: vec![3, 1], from }).unwrap(), None);
    // An empty datagram reads as type 0.
    assert_eq!(recv_ping(RecvOutcome::Received { data: vec![], from }).unwrap(), Some(ip(192, 168, 1, 9)));
    let other = SockAddr::Other { family: 10 };
    assert_eq!(recv_ping(RecvOutcome::Received { data: vec![0], from: other }).unwrap(), None);
    assert_eq!(recv_ping(RecvOutcome::Failed { would_block: true, os_error: 11 }).unwrap(), None);
    assert!(matches!(
        recv_ping(RecvOutcome::Failed { would_block: false, os_error: 9 }),
        Err(DiscoverError::SocketError { os_error: 9 })
    ));
}

fn local_interface() -> NetworkInterface {
    NetworkInterface {
        ifname: "eth0".to_string(),
        ip: ip(192, 168, 1, 2),
        mac: MAC,
        subnet: Subnet::new(IpAddr::V4(ip(192, 168, 1, 2)), 29),
    }
}

fn is_ping(a: &ScanAction, target: u32) -> bool {
    matches!(a, ScanAction::Ping(t) if *t == target)
}

#[test]
fn scan_of_other_interface_only_shows_header() {
    let mut s = Scanner::new("eth1".to_string());
    let acts = scan_network(&mut s, ScanEvent::Start);
    assert!(matches!(acts.as_slice(), [ScanAction::ShowHeader, ScanAction::Complete]));
    assert_eq!(s.phase, ScanPhase::Finished);
}

#[test]
fn scan_aborts_when_interface_lookup_fails() {
    let mut s = Scanner::new("default".to_string());
    let acts = scan_network(&mut s, ScanEvent::Start);
    assert!(matches!(acts.as_slice(), [ScanAction::ShowHeader, ScanAction::LookupInterface]));
    let err = AddrLookupError::LocalAddress(DiscoverError::NetworkInterfaceNotFound);
    let acts = scan_network(&mut s, ScanEvent::Interface(Err(err)));
    assert!(matches!(
        acts.as_slice(),
        [ScanAction::Abort(AddrLookupError::LocalAddress(DiscoverError::NetworkInterfaceNotFound))]
    ));
    assert_eq!(s.phase, ScanPhase::Finished);
}

#[test]
fn scan_of_default_interface_walks_the_subnet() {
    let mut s = Scanner::new("default".to_string());
    scan_network(&mut s, ScanEvent::Start);
    // Hosts 192.168.1.1 ..= 192.168.1.6; this host is .2.
    let acts = scan_network(&mut s, ScanEvent::Interface(Ok(local_interface())));
    assert_eq!(acts.len(), 1);
    assert!(is_ping(&acts[0], ip(192, 168, 1, 1)));
    let acts = scan_network(&mut s, ScanEvent::PingAnswered(Some(ip(192, 168, 1, 1))));
    assert_eq!(acts.len(), 3);
    assert!(matches!(&acts[0], ScanAction::Report(Sighting { ip: i, mac: MacAddress { addr: [0, 0, 0, 0, 0, 0] }, kind: DeviceKind::Unknown }) if *i == ip(192, 168, 1, 1)));
    assert!(matches!(&acts[1], ScanAction::Report(Sighting { ip: i, mac, kind: DeviceKind::ThisPc }) if *i == ip(192, 168, 1, 2) && *mac == MAC));
    assert!(is_ping(&acts[2], ip(192, 168, 1, 3)));
    let acts = scan_network(&mut s, ScanEvent::PingFailed);
    assert!(is_ping(&acts[0], ip(192, 168, 1, 4)) && acts.len() == 1);
    let acts = scan_network(&mut s, ScanEvent::PingAnswered(None));
    assert!(is_ping(&acts[0], ip(192, 168, 1, 5)) && acts.len() == 1);
    let acts = scan_network(&mut s, ScanEvent::PingAnswered(None));
    assert!(is_ping(&acts[0], ip(192, 168, 1, 6)) && acts.len() == 1);
    let acts = scan_network(&mut s, ScanEvent::PingAnswered(Some(ip(192, 168, 1, 6))));
    assert_eq!(acts.len(), 2);
    assert!(matches!(&acts[0], ScanAction::Report(Sighting { kind: DeviceKind::Unknown, .. })));
    assert!(matches!(&acts[1], ScanAction::Complete));
    assert_eq!(s.phase, ScanPhase::Finished);
    // A finished scan ignores further events.
    assert!(scan_network(&mut s, ScanEvent::PingFailed).is_empty());
}

#[test]
fn scan_ignores_events_out_of_turn() {
    let mut s = Scanner::new("default".to_string());
    assert!(scan_network(&mut s, ScanEvent::PingFailed).is_empty());
    assert_eq!(s.phase, ScanPhase::Ready);
    scan_network(&mut s, ScanEvent::Start);
    assert!(scan_network(&mut s, ScanEvent::Start).is_empty());
    assert_eq!(s.phase, ScanPhase::AwaitingInterface);
}

#[test]
fn scan_completes_on_a_subnet_holding_only_this_host() {
    let mut s = Scanner::new("default".to_string());
    scan_network(&mut s, ScanEvent::Start);
    let ni = NetworkInterface {
        ifname: "eth0".to_string(),
        ip: ip(10, 0, 0, 1),
        mac: MAC,
        subnet: Subnet::new(IpAddr::V4(ip(10, 0, 0, 1)), 31),
    };
    let acts = scan_network(&mut s, ScanEvent::Interface(Ok(ni)));
    assert!(matches!(acts.as_slice(), [ScanAction::Complete]));
}

#[test]
fn checksum_words_are_wire_byte_pairs() {
    let hdr = icmphdr { icmp_type: 0, code: 3, checksum: 0xabcd, id: 0x1234, seq: 0xfffe };
    let b = hdr.to_bytes();
    assert_eq!(b, [0, 3, 0xab, 0xcd, 0x12, 0x34, 0xff, 0xfe]);
    let words = [word_from_bytes(b[0], b[1]), word_from_bytes(b[2], b[3]), word_from_bytes(b[4], b[5]), word_from_bytes(b[6], b[7])];
    assert_eq!(words, [word_from_bytes(hdr.icmp_type, hdr.code), hdr.checksum, hdr.id, hdr.seq]);
}

#[test]
fn own_address_is_listed_unless_network_or_broadcast() {
    let s = Subnet::new(IpAddr::V4(ip(192, 168, 1, 0)), 24);
    assert!(!s.get_subnet_ips().contains(&ip(192, 168, 1, 0)));
    let s = Subnet::new(IpAddr::V4(ip(192, 168, 1, 255)), 24);
    assert!(!s.get_subnet_ips().contains(&ip(192, 168, 1, 255)));
    let s = Subnet::new(IpAddr::V4(ip(192, 168, 1, 254)), 24);
    assert!(s.get_subnet_ips().contains(&ip(192, 168, 1, 254)));
}
