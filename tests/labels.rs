use packet_swiffer::utils::{mac_to_str, tcp_l7, udp_l7};

#[test]
fn tcp_ports_have_labels() {
    assert_eq!(tcp_l7(80), "http");
    assert_eq!(tcp_l7(443), "https");
    assert_eq!(tcp_l7(21), "ssh");
    assert_eq!(tcp_l7(23), "telnet");
    assert_eq!(tcp_l7(25), "smtp");
    assert_eq!(tcp_l7(110), "POP3");
    assert_eq!(tcp_l7(143), "IMAP");
    assert_eq!(tcp_l7(194), "IRC");
    assert_eq!(tcp_l7(8080), "unknown");
}

#[test]
fn udp_ports_have_labels() {
    assert_eq!(udp_l7(53), "DNS");
    assert_eq!(udp_l7(67), "DHCP");
    assert_eq!(udp_l7(68), "DHCP");
    assert_eq!(udp_l7(69), "TFTP");
    assert_eq!(udp_l7(161), "SNMP");
    assert_eq!(udp_l7(162), "SNMP");
    assert_eq!(udp_l7(66), "unknown");
    assert_eq!(udp_l7(163), "unknown");
}

#[test]
fn mac_addresses_render_as_hex() {
    assert_eq!(mac_to_str([0xaa, 0x0b, 0x00, 0x10, 0xff, 0x01]), "aa:b:0:10:ff:1");
}
