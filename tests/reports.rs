use packet_swiffer::net::IpAddress;
use packet_swiffer::packet::Packet;
use packet_swiffer::render::{
    csv_header_bytes, header_fields, parse_address, read_report, read_row, report_path, session_dir_name, text_header,
};
use packet_swiffer::report::{produce_hashmap, Report};

fn packet(src: IpAddress, sport: Option<u16>, length: u16, ts: &str) -> Packet {
    Packet::new(
        "eth0".to_string(),
        src,
        IpAddress::V4(10, 0, 0, 2),
        "none".to_string(),
        sport,
        Some(80),
        length,
        "TCP".to_string(),
        "http".to_string(),
        ts.to_string(),
    )
}

fn record() -> Report {
    Report {
        packet: packet(IpAddress::V4(10, 0, 0, 1), Some(1234), 100, "t1"),
        total_bytes: 250,
        start_time: "t1".to_string(),
        stop_time: "t2".to_string(),
    }
}

#[test]
fn addresses_render_as_text() {
    assert_eq!(IpAddress::V4(192, 168, 0, 1).to_text(), "192.168.0.1");
    assert_eq!(IpAddress::V6(0x2001, 0xdb8, 0, 0, 0, 0, 0, 1).to_text(), "2001:db8::1");
    assert_eq!(parse_address("192.168.0.1"), Some(IpAddress::V4(192, 168, 0, 1)));
    assert_eq!(parse_address("2001:db8::1"), Some(IpAddress::V6(0x2001, 0xdb8, 0, 0, 0, 0, 0, 1)));
    assert_eq!(parse_address("2001:db8:0:0:0:0:0:1"), Some(IpAddress::V6(0x2001, 0xdb8, 0, 0, 0, 0, 0, 1)));
    assert_eq!(parse_address("1.2.3"), None);
    assert_eq!(parse_address("1:2"), None);
}

#[test]
fn record_fields_follow_the_header() {
    assert_eq!(
        header_fields(),
        vec!["interface", "src_addr", "dest_addr", "res_name", "src_port", "dest_port", "transport", "application", "tot_bytes", "start_time", "stop_time"]
    );
    assert_eq!(
        record().fields(),
        vec!["eth0", "10.0.0.1", "10.0.0.2", "none", "1234", "80", "TCP", "http", "250", "t1", "t2"]
    );
}

#[test]
fn structured_rows_are_csv_lines() {
    assert_eq!(
        String::from_utf8(csv_header_bytes()).unwrap(),
        "interface,src_addr,dest_addr,res_name,src_port,dest_port,transport,application,tot_bytes,start_time,stop_time\n"
    );
    assert_eq!(String::from_utf8(record().csv_bytes()).unwrap(), "eth0,10.0.0.1,10.0.0.2,none,1234,80,TCP,http,250,t1,t2\n");
    let mut r = record();
    r.packet.res_name = "a.org, b.net".to_string();
    r.packet.src_port = None;
    assert_eq!(String::from_utf8(r.csv_bytes()).unwrap(), "eth0,10.0.0.1,10.0.0.2,\"a.org, b.net\",,80,TCP,http,250,t1,t2\n");
}

#[test]
fn text_rows_are_padded_columns() {
    assert_eq!(
        record().text_record(),
        "| eth0\t| 10.0.0.1            \t| 1234 \t| 10.0.0.2                  (none) \t| 80   \t| 250\t| TCP  \t| http\t| t1             \t| t2             "
    );
    assert!(text_header().starts_with("| Interface\t| Source IP address"));
    assert!(text_header().ends_with("| Last Timestamp \n"));
}

#[test]
fn written_rows_read_back_in_any_order() {
    let ps = vec![
        packet(IpAddress::V4(10, 0, 0, 1), Some(1), 10, "a"),
        packet(IpAddress::V6(0xfe80, 0, 0, 0, 0, 0, 0, 1), None, 20, "b"),
        packet(IpAddress::V4(10, 0, 0, 1), Some(1), 30, "c"),
        packet(IpAddress::V4(10, 0, 0, 3), Some(3), 40, "d"),
    ];
    let flows = produce_hashmap(ps);
    let mut expected: Vec<(String, u64, String, String)> = flows
        .iter()
        .map(|(k, r)| (format!("{:?}", k), r.total_bytes, r.start_time.clone(), r.stop_time.clone()))
        .collect();
    expected.sort();
    for order in [vec![0usize, 1, 2], vec![2, 0, 1], vec![1, 2, 0]] {
        let mut bytes = csv_header_bytes();
        for i in &order {
            bytes.extend(flows[*i].1.csv_bytes());
        }
        let back = read_report(&bytes).unwrap();
        let mut got: Vec<(String, u64, String, String)> = back
            .iter()
            .map(|s| (format!("{:?}", s.key), s.total_bytes, s.start_time.clone(), s.stop_time.clone()))
            .collect();
        got.sort();
        assert_eq!(got, expected);
    }
}

#[test]
fn report_without_header_does_not_read_back() {
    assert!(read_report(&record().csv_bytes()).is_none());
    assert!(read_report(b"").is_none());
}

#[test]
fn rows_read_back_field_by_field() {
    let s = read_row(&record().fields()).unwrap();
    assert_eq!(s.key.src_port, Some(1234));
    assert_eq!(s.total_bytes, 250);
    assert!(read_row(&vec!["x".to_string()]).is_none());
}

#[test]
fn report_files_are_named_by_index() {
    assert_eq!(report_path("report_20240102_03_04_05", "report", 0, false), "report_20240102_03_04_05/report-0.txt");
    assert_eq!(report_path("d", "traffic", 12, true), "d/traffic-12.csv");
}

#[test]
fn session_directory_drops_fraction_and_punctuation() {
    assert_eq!(session_dir_name("report", "2024-01-02 03:04:05.123456789"), "report_20240102_03_04_05");
    assert_eq!(session_dir_name("a", "b"), "");
}

#[test]
fn ipv6_text_is_the_standard_short_form() {
    let cases: Vec<(IpAddress, &str)> = vec![
        (IpAddress::V6(0, 0, 0, 0, 0, 0, 0, 1), "::1"),
        (IpAddress::V6(0, 0, 0, 0, 0, 0, 0, 0), "::"),
        (IpAddress::V6(0xfe80, 0, 0, 0, 0, 0, 0, 0), "fe80::"),
        (IpAddress::V6(1, 0, 0, 2, 0, 0, 0, 3), "1:0:0:2::3"),
        (IpAddress::V6(1, 0, 0, 2, 0, 0, 3, 4), "1::2:0:0:3:4"),
        (IpAddress::V6(1, 0, 2, 0, 3, 0, 4, 0), "1:0:2:0:3:0:4:0"),
        (IpAddress::V6(0, 0, 0, 0, 0, 0xffff, 0xc0a8, 0x0001), "::ffff:192.168.0.1"),
        (IpAddress::V6(0, 0, 0, 0, 0, 0xfffe, 0xc0a8, 0x0001), "::fffe:c0a8:1"),
    ];
    for (addr, text) in cases {
        assert_eq!(addr.to_text(), text);
        assert_eq!(parse_address(text), Some(addr));
    }
}

#[test]
fn malformed_ipv6_text_is_rejected() {
    assert_eq!(parse_address("1::2::3"), None);
    assert_eq!(parse_address(":1:2:3:4:5:6:7"), None);
    assert_eq!(parse_address("1:2:3:4:5:6:7:8:9"), None);
    assert_eq!(parse_address("1:2:3:4::5:6:7"), None);
    assert_eq!(parse_address("::ffff:1.2.3"), None);
}

#[test]
fn text_row_shows_ipv6_loopback_short() {
    let mut r = record();
    r.packet.src_addr = IpAddress::V6(0, 0, 0, 0, 0, 0, 0, 1);
    assert!(r.text_record().starts_with("| eth0\t| ::1                 \t| 1234 \t|"));
    let back = read_row(&r.fields()).unwrap();
    assert_eq!(back.key.src_addr, IpAddress::V6(0, 0, 0, 0, 0, 0, 0, 1));
}
