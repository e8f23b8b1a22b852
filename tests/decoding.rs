use packet_swiffer::net::IpAddress;
use packet_swiffer::packet::Error;
use packet_swiffer::parser::{decode_frame, handle_ethernet_frame, handle_transport_protocol, udp_packet, IpProto};

fn ethernet(ethertype: u16, payload: &[u8]) -> Vec<u8> {
    let mut f = vec![0xaa, 0xbb, 0xcc, 0xdd, 0xee, 0xff, 0x11, 0x22, 0x33, 0x44, 0x55, 0x66];
    f.extend_from_slice(&ethertype.to_be_bytes());
    f.extend_from_slice(payload);
    f
}

fn ipv4(protocol: u8, src: [u8; 4], dst: [u8; 4], payload: &[u8]) -> Vec<u8> {
    let total = (20 + payload.len()) as u16;
    let mut p = vec![0x45, 0x00];
    p.extend_from_slice(&total.to_be_bytes());
    p.extend_from_slice(&[0x1a, 0xe6, 0x40, 0x00, 0x40, protocol, 0x00, 0x00]);
    p.extend_from_slice(&src);
    p.extend_from_slice(&dst);
    p.extend_from_slice(payload);
    p
}

fn tcp(sport: u16, dport: u16, data_offset: u8) -> Vec<u8> {
    let mut t = Vec::new();
    t.extend_from_slice(&sport.to_be_bytes());
    t.extend_from_slice(&dport.to_be_bytes());
    t.extend_from_slice(&[0, 0, 0, 1, 0, 0, 0, 0, data_offset << 4, 0x18, 0x01, 0x00, 0, 0, 0, 0]);
    t
}

fn udp(sport: u16, dport: u16, payload: &[u8]) -> Vec<u8> {
    let len = (8 + payload.len()) as u16;
    let mut u = Vec::new();
    u.extend_from_slice(&sport.to_be_bytes());
    u.extend_from_slice(&dport.to_be_bytes());
    u.extend_from_slice(&len.to_be_bytes());
    u.extend_from_slice(&[0, 0]);
    u.extend_from_slice(payload);
    u
}

fn dns_query() -> Vec<u8> {
    let mut d = vec![0x12, 0x34, 0x01, 0x00, 0x00, 0x01, 0x00, 0x00, 0x00, 0x00, 0x00, 0x00];
    d.push(7);
    d.extend_from_slice(b"example");
    d.push(3);
    d.extend_from_slice(b"com");
    d.extend_from_slice(&[0, 0, 1, 0, 1]);
    d
}

#[test]
fn tcp_over_ipv4_decodes() {
    let frame = ethernet(0x0800, &ipv4(6, [10, 0, 0, 1], [10, 0, 0, 2], &tcp(1234, 80, 5)));
    let p = decode_frame("eth0", &frame, "12:00").unwrap();
    assert_eq!(p.interface, "eth0");
    assert_eq!(p.src_addr, IpAddress::V4(10, 0, 0, 1));
    assert_eq!(p.dest_addr, IpAddress::V4(10, 0, 0, 2));
    assert_eq!(p.res_name, "none");
    assert_eq!(p.src_port, Some(1234));
    assert_eq!(p.dest_port, Some(80));
    assert_eq!(p.length, 20);
    assert_eq!(p.transport, "TCP");
    assert_eq!(p.application, "http");
    assert_eq!(p.timestamp, "12:00");
}

#[test]
fn malformed_ipv4_is_dropped_and_next_frame_decodes() {
    let bad = ethernet(0x0800, &[0x45, 0x00, 0x00, 0x14, 0x00]);
    match decode_frame("eth0", &bad, "t") {
        Err(Error::IPv4ParsingError(m)) => assert_eq!(m, "[err]: Couldn't parse IPv4 packet"),
        other => panic!("unexpected {:?}", other),
    }
    let good = ethernet(0x0800, &ipv4(6, [10, 0, 0, 1], [10, 0, 0, 2], &tcp(4000, 443, 5)));
    let p = decode_frame("eth0", &good, "t").unwrap();
    assert_eq!(p.application, "https");
}

#[test]
fn short_frame_fails_at_ethernet() {
    let r = decode_frame("eth0", &[1, 2, 3], "t");
    assert!(matches!(r, Err(Error::EthernetParsingError(_))));
    assert_eq!(r.unwrap_err().to_string(), "[err]: Couldn't parse ethernet packet");
}

#[test]
fn unknown_ethertype_is_unknown_packet() {
    let r = decode_frame("eth0", &ethernet(0x88cc, &[0; 30]), "t");
    assert!(matches!(r, Err(Error::UnknownPacket(ref m)) if m == "Unknown packet"));
}

#[test]
fn unknown_ip_protocol_is_unknown_packet() {
    let r = decode_frame("eth0", &ethernet(0x0800, &ipv4(47, [1, 1, 1, 1], [2, 2, 2, 2], &[0; 8])), "t");
    assert!(matches!(r, Err(Error::UnknownPacket(_))));
}

#[test]
fn tcp_with_missing_options_fails() {
    let frame = ethernet(0x0800, &ipv4(6, [1, 1, 1, 1], [2, 2, 2, 2], &tcp(1, 2, 8)));
    assert!(matches!(decode_frame("eth0", &frame, "t"), Err(Error::TCPParsingError(_))));
}

#[test]
fn dns_query_names_the_question() {
    let frame = ethernet(0x0800, &ipv4(17, [192, 168, 1, 5], [8, 8, 8, 8], &udp(5353, 53, &dns_query())));
    let p = decode_frame("wlan0", &frame, "t").unwrap();
    assert_eq!(p.res_name, "example.com");
    assert_eq!(p.application, "DNS");
    assert_eq!(p.transport, "UDP");
    assert_eq!(p.src_port, Some(5353));
    assert_eq!(p.dest_port, Some(53));
    assert_eq!(p.length, 8 + dns_query().len() as u16);
}

#[test]
fn udp_without_dns_payload_has_no_name() {
    let frame = ethernet(0x0800, &ipv4(17, [1, 1, 1, 1], [2, 2, 2, 2], &udp(1000, 67, &[1, 2, 3])));
    let p = decode_frame("eth0", &frame, "t").unwrap();
    assert_eq!(p.res_name, "none");
    assert_eq!(p.application, "unknown");
    assert_eq!(p.length, 11);
}

#[test]
fn short_udp_fails() {
    let frame = ethernet(0x0800, &ipv4(17, [1, 1, 1, 1], [2, 2, 2, 2], &[0, 53, 0]));
    assert!(matches!(decode_frame("eth0", &frame, "t"), Err(Error::UDPParsingError(_))));
}

#[test]
fn udp_packet_joins_question_names() {
    let names = Some(vec!["a.org".to_string(), "b.net".to_string()]);
    let p = udp_packet("eth0", IpAddress::V4(1, 2, 3, 4), IpAddress::V4(5, 6, 7, 8), 999, 53, 40, names, "t");
    assert_eq!(p.res_name, "a.org, b.net");
    assert_eq!(p.application, "DNS");
    let q = udp_packet("eth0", IpAddress::V4(1, 2, 3, 4), IpAddress::V4(5, 6, 7, 8), 999, 161, 40, None, "t");
    assert_eq!(q.res_name, "none");
    assert_eq!(q.application, "unknown");
}

#[test]
fn icmp_echo_request_decodes() {
    let frame = ethernet(0x0800, &ipv4(1, [1, 1, 1, 1], [2, 2, 2, 2], &[8, 0, 0xf7, 0xff, 0, 1, 0, 1]));
    let p = decode_frame("eth0", &frame, "t").unwrap();
    assert_eq!(p.transport, "ICMP echo request");
    assert_eq!(p.length, 8);
    assert_eq!(p.src_port, None);
    assert_eq!(p.dest_port, None);
    let reply = ethernet(0x0800, &ipv4(1, [2, 2, 2, 2], [1, 1, 1, 1], &[0, 0, 0, 0]));
    assert_eq!(decode_frame("eth0", &reply, "t").unwrap().transport, "ICMP echo reply");
    let other = ethernet(0x0800, &ipv4(1, [2, 2, 2, 2], [1, 1, 1, 1], &[13, 0, 0, 0]));
    assert_eq!(decode_frame("eth0", &other, "t").unwrap().transport, "ICMP packet");
}

#[test]
fn truncated_icmp_unreachable_fails() {
    let frame = ethernet(0x0800, &ipv4(1, [1, 1, 1, 1], [2, 2, 2, 2], &[3, 1, 0, 0, 0, 0, 0, 0]));
    assert!(matches!(decode_frame("eth0", &frame, "t"), Err(Error::ICMPParsingError(_))));
}

#[test]
fn arp_decodes_sender_and_target() {
    let mut arp = vec![0, 1, 8, 0, 6, 4, 0, 1];
    arp.extend_from_slice(&[1, 2, 3, 4, 5, 6]);
    arp.extend_from_slice(&[192, 168, 0, 1]);
    arp.extend_from_slice(&[0, 0, 0, 0, 0, 0]);
    arp.extend_from_slice(&[192, 168, 0, 2]);
    let p = decode_frame("eth0", &ethernet(0x0806, &arp), "t").unwrap();
    assert_eq!(p.src_addr, IpAddress::V4(192, 168, 0, 1));
    assert_eq!(p.dest_addr, IpAddress::V4(192, 168, 0, 2));
    assert_eq!(p.transport, "ARP");
    assert_eq!(p.length, 28);
    assert!(matches!(decode_frame("eth0", &ethernet(0x0806, &arp[..20]), "t"), Err(Error::ARPParsingError(_))));
}

#[test]
fn tcp_over_ipv6_decodes() {
    let mut h = vec![0x60, 0, 0, 0, 0, 20, 6, 64];
    h.extend_from_slice(&[0x20, 0x01, 0x0d, 0xb8, 0, 0, 0, 0, 0, 0, 0, 0, 0, 0, 0, 1]);
    h.extend_from_slice(&[0xfe, 0x80, 0, 0, 0, 0, 0, 0, 0, 0, 0, 0, 0, 0, 0x12, 0x34]);
    h.extend_from_slice(&tcp(5000, 22, 5));
    let p = decode_frame("eth0", &ethernet(0x86dd, &h), "t").unwrap();
    assert_eq!(p.src_addr, IpAddress::V6(0x2001, 0x0db8, 0, 0, 0, 0, 0, 1));
    assert_eq!(p.dest_addr, IpAddress::V6(0xfe80, 0, 0, 0, 0, 0, 0, 0x1234));
    assert_eq!(p.application, "unknown");
    assert!(matches!(decode_frame("eth0", &ethernet(0x86dd, &h[..30]), "t"), Err(Error::IPv6ParsingError(_))));
}

#[test]
fn transport_dispatch_follows_protocol() {
    let r = handle_transport_protocol("eth0", IpAddress::V4(1, 1, 1, 1), IpAddress::V4(2, 2, 2, 2), IpProto::Other, &[0; 20], "t");
    assert!(matches!(r, Err(Error::UnknownPacket(_))));
    let r = handle_transport_protocol("eth0", IpAddress::V4(1, 1, 1, 1), IpAddress::V4(2, 2, 2, 2), IpProto::Tcp, &tcp(1, 25, 5), "t");
    assert_eq!(r.unwrap().application, "smtp");
}

#[test]
fn live_decode_stamps_the_packet() {
    let frame = ethernet(0x0800, &ipv4(6, [10, 0, 0, 1], [10, 0, 0, 2], &tcp(1234, 80, 5)));
    let p = handle_ethernet_frame("eth0", &frame).unwrap();
    assert!(!p.timestamp.is_empty());
    assert_eq!(p.dest_port, Some(80));
}

#[test]
fn icmp_and_arp_lengths_are_byte_counts() {
    let mut echo = vec![8, 0, 0, 0, 0, 1, 0, 1];
    echo.resize(100, 0xab);
    let r = handle_transport_protocol("eth0", IpAddress::V4(1, 1, 1, 1), IpAddress::V4(2, 2, 2, 2), IpProto::Icmp, &echo, "t");
    assert_eq!(r.unwrap().length, 100);
    let mut arp = vec![0, 1, 8, 0, 6, 4, 0, 2];
    arp.resize(100, 0);
    let p = decode_frame("eth0", &ethernet(0x0806, &arp), "t").unwrap();
    assert_eq!(p.length, 100);
}
